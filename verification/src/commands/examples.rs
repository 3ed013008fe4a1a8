//! Example JSON values for schemas: the document's own examples where
//! given, else placeholders by type, objects by their properties, a depth
//! of three levels at most and no schema inside itself.
use vstd::prelude::*;
use crate::models::json::{clone_json, jmembers, jview, jviews, JsonValue, JsonView};
use crate::models::openapi::{
    component, copy_texts, resolve_ref, resolve_reference, find_component, push_text, resolve_variant, texts, variant_schema, SchemaKind,
    SchemaNode, SchemaRef, StringFormat,
};
use crate::commands::init::opt_view;
use crate::commands::schemas::{find_schema, mapped_name, spec_find_schema};
use crate::document::{schema_name_from_ref, spec_schema_name_from_ref};
use crate::render::sanitize::{owned, str_eq};

verus! {

// ───────────────────────── objects ─────────────────────────

/// The first member at or after `i` with key `k`.
pub open spec fn key_pos(m: Seq<(Seq<char>, JsonView)>, k: Seq<char>, i: int) -> Option<int>
    decreases m.len() - i,
{
    if i < 0 || i >= m.len() {
        None
    } else if m[i].0 == k {
        Some(i)
    } else {
        key_pos(m, k, i + 1)
    }
}

/// `m` with `k` set to `v`: in its place where `k` is there, else added.
pub open spec fn obj_insert(m: Seq<(Seq<char>, JsonView)>, k: Seq<char>, v: JsonView) -> Seq<(Seq<char>, JsonView)> {
    match key_pos(m, k, 0) {
        Some(i) => m.update(i, (k, v)),
        None => m.push((k, v)),
    }
}

/// `m` with each member of `extra` inserted in turn.
pub open spec fn obj_extend(m: Seq<(Seq<char>, JsonView)>, extra: Seq<(Seq<char>, JsonView)>) -> Seq<(Seq<char>, JsonView)>
    decreases extra.len(),
{
    if extra.len() == 0 {
        m
    } else {
        let prev = obj_extend(m, extra.drop_last());
        obj_insert(prev, extra.last().0, extra.last().1)
    }
}

pub proof fn lemma_jmembers(s: Seq<(String, JsonValue)>)
    ensures
        jmembers(s).len() == s.len(),
        forall|i: int| 0 <= i < s.len() ==> #[trigger] jmembers(s)[i] == (s[i].0@, jview(s[i].1)),
    decreases s.len(),
{
    if s.len() > 0 {
        lemma_jmembers(s.subrange(0, s.len() - 1));
    }
}

pub proof fn lemma_jviews(s: Seq<JsonValue>)
    ensures
        jviews(s).len() == s.len(),
        forall|i: int| 0 <= i < s.len() ==> #[trigger] jviews(s)[i] == jview(s[i]),
    decreases s.len(),
{
    if s.len() > 0 {
        lemma_jviews(s.subrange(0, s.len() - 1));
    }
}

fn obj_insert_exec(m: &mut Vec<(String, JsonValue)>, k: String, v: JsonValue)
    ensures
        jmembers(final(m)@) == obj_insert(jmembers(old(m)@), k@, jview(v)),
{
    let ghost mv = jmembers(m@);
    proof { lemma_jmembers(m@); }
    let mut i: usize = 0;
    while i < m.len()
        invariant
            i <= m.len(),
            m@ == old(m)@,
            mv == jmembers(m@),
            mv.len() == m@.len(),
            forall|j: int| 0 <= j < m@.len() ==> #[trigger] mv[j] == (m@[j].0@, jview(m@[j].1)),
            key_pos(mv, k@, 0) == key_pos(mv, k@, i as int),
        decreases m.len() - i,
    {
        if str_eq(m[i].0.as_str(), k.as_str()) {
            assert(mv[i as int].0 == k@);
            assert(key_pos(mv, k@, i as int) == Some(i as int));
            let _ = m.remove(i);
            m.insert(i, (k, v));
            proof {
                lemma_jmembers(m@);
                assert(jmembers(m@) =~= mv.update(i as int, (k@, jview(v))));
            }
            return;
        }
        i = i + 1;
    }
    let ghost m0 = m@;
    m.push((k, v));
    proof {
        lemma_jmembers(m@);
        assert(jmembers(m@) =~= mv.push((k@, jview(v))));
    }
}

fn obj_extend_exec(m: &mut Vec<(String, JsonValue)>, extra: Vec<(String, JsonValue)>)
    ensures
        jmembers(final(m)@) == obj_extend(jmembers(old(m)@), jmembers(extra@)),
{
    let ghost m0 = jmembers(m@);
    let ghost e0 = extra@;
    proof { lemma_jmembers(e0); }
    let mut rest = extra;
    let n0 = rest.len();
    let mut k: usize = 0;
    assert(jmembers(e0).take(0) =~= Seq::<(Seq<char>, JsonView)>::empty());
    while rest.len() > 0
        invariant
            k + rest@.len() == e0.len(),
            e0.len() == n0,
            rest@ == e0.skip(k as int),
            jmembers(e0).len() == e0.len(),
            forall|j: int| 0 <= j < e0.len() ==> #[trigger] jmembers(e0)[j] == (e0[j].0@, jview(e0[j].1)),
            jmembers(m@) == obj_extend(m0, jmembers(e0).take(k as int)),
        decreases rest@.len(),
    {
        let (key, val) = rest.remove(0);
        proof {
            assert((key, val) == e0[k as int]);
            assert(rest@ =~= e0.skip(k + 1));
            let t = jmembers(e0).take(k + 1);
            assert(t.drop_last() =~= jmembers(e0).take(k as int));
            assert(t.last() == (key@, jview(val)));
        }
        obj_insert_exec(m, key, val);
        k = k + 1;
    }
    assert(jmembers(e0).take(k as int) =~= jmembers(e0));
}

// ───────────────────────── generating ─────────────────────────

/// How many more levels may be generated from `depth`.
pub open spec fn budget(depth: nat) -> nat {
    if depth > 3 { 0 } else { (4 - depth) as nat }
}

/// The required names an example of a schema keeps when only required
/// properties are wanted.
pub open spec fn example_required(s: SchemaNode) -> Seq<Seq<char>> {
    match s.kind {
        SchemaKind::Object { required, .. } => texts(required@),
        SchemaKind::Any { required, .. } => texts(required@),
        _ => seq![],
    }
}

/// The first enum value given.
pub open spec fn first_some(v: Seq<Option<String>>) -> Option<Seq<char>>
    decreases v.len(),
{
    if v.len() == 0 {
        None
    } else {
        match v[0] {
            Some(x) => Some(x@),
            None => first_some(v.drop_first()),
        }
    }
}

/// The placeholder for a string of that format.
pub open spec fn placeholder(f: StringFormat) -> Seq<char> {
    match f {
        StringFormat::DateTime => "2024-01-15T10:30:00Z"@,
        StringFormat::Date => "2024-01-15"@,
        StringFormat::Unknown(x) => if x@ == "uuid"@ {
            "550e8400-e29b-41d4-a716-446655440000"@
        } else if x@ == "email"@ {
            "user@example.com"@
        } else if x@ == "uri"@ || x@ == "url"@ {
            "https://example.com"@
        } else {
            "string"@
        },
        _ => "string"@,
    }
}

/// The example of a schema at `depth`: `null` beyond three levels; the
/// schema's own example; an object of its properties (only the required
/// ones unless `opt`); the first enum value or a placeholder for a string
/// by its format; `0`, `0.0` or `true`; an array of one item; the members
/// of an `allOf`'s parts merged; the first variant of a `oneOf`/`anyOf`.
/// `vis` holds the schemas being generated further up, which a reference
/// from a property or array item gives `null` for.
pub open spec fn gen(comps: Seq<(String, SchemaRef)>, s: SchemaNode, req: Seq<Seq<char>>, opt: bool, vis: Seq<Seq<char>>, depth: nat) -> JsonView
    decreases budget(depth), 0nat, s,
{
    if depth > 3 {
        JsonView::Null
    } else {
        match s.example {
            Some(e) => jview(e),
            None => match s.kind {
                SchemaKind::Object { properties, .. } => JsonView::Object(obj_members(comps, properties@, req, opt, vis, depth)),
                SchemaKind::Any { properties, typ, .. } => if properties@.len() > 0 {
                    JsonView::Object(obj_members(comps, properties@, req, opt, vis, depth))
                } else if opt_view(typ) == Some("boolean"@) {
                    JsonView::Bool(true)
                } else {
                    JsonView::Null
                },
                SchemaKind::String { enumeration, format, .. } => match first_some(enumeration@) {
                    Some(x) => JsonView::Str(x),
                    None => JsonView::Str(placeholder(format)),
                },
                SchemaKind::Integer { .. } => JsonView::Number("0"@),
                SchemaKind::Number { .. } => JsonView::Number("0.0"@),
                SchemaKind::Boolean => JsonView::Bool(true),
                SchemaKind::Array { items, .. } => JsonView::Array(seq![match items {
                    None => JsonView::Null,
                    Some(SchemaRef::Reference(r)) => gen_ref(comps, r@, opt, vis, depth + 1),
                    Some(SchemaRef::Item(b)) => gen(comps, *b, example_required(*b), opt, vis, depth + 1),
                }]),
                SchemaKind::AllOf(parts) => JsonView::Object(allof_members(comps, parts@, opt, vis, depth)),
                SchemaKind::OneOf(vs) => if vs@.len() > 0 {
                    match vs@[0] {
                        SchemaRef::Item(b) => gen(comps, *b, example_required(*b), opt, vis, depth + 1),
                        SchemaRef::Reference(r) => match variant_schema(comps, SchemaRef::Reference(r)) {
                            Some(t) => gen(comps, t, example_required(t), opt, vis, depth + 1),
                            None => JsonView::Object(seq![]),
                        },
                    }
                } else {
                    JsonView::Object(seq![])
                },
                SchemaKind::AnyOf(vs) => if vs@.len() > 0 {
                    match vs@[0] {
                        SchemaRef::Item(b) => gen(comps, *b, example_required(*b), opt, vis, depth + 1),
                        SchemaRef::Reference(r) => match variant_schema(comps, SchemaRef::Reference(r)) {
                            Some(t) => gen(comps, t, example_required(t), opt, vis, depth + 1),
                            None => JsonView::Object(seq![]),
                        },
                    }
                } else {
                    JsonView::Object(seq![])
                },
                SchemaKind::Not => JsonView::Null,
            },
        }
    }
}

/// The example for a reference from a property or array item at depth
/// `d`: `null` where it names no schema, one being generated further up,
/// or one that is not there.
pub open spec fn gen_ref(comps: Seq<(String, SchemaRef)>, r: Seq<char>, opt: bool, vis: Seq<Seq<char>>, d: nat) -> JsonView
    decreases budget(d), 1nat, r,
{
    match spec_schema_name_from_ref(r) {
        None => JsonView::Null,
        Some(n) => if vis.contains(n) {
            JsonView::Null
        } else {
            match component(comps, n) {
                Some(t) => gen(comps, t, example_required(t), opt, vis.push(n), d),
                None => JsonView::Null,
            }
        },
    }
}

/// The members for the first properties: each wanted one with its example.
pub open spec fn obj_members(comps: Seq<(String, SchemaRef)>, props: Seq<(String, SchemaRef)>, req: Seq<Seq<char>>, opt: bool, vis: Seq<Seq<char>>, depth: nat) -> Seq<(Seq<char>, JsonView)>
    decreases budget(depth), 0nat, props,
{
    if depth > 3 || props.len() == 0 {
        seq![]
    } else {
        let prev = obj_members(comps, props.subrange(0, props.len() - 1), req, opt, vis, depth);
        let p = props[props.len() - 1];
        if !req.contains(p.0@) && !opt {
            prev
        } else {
            obj_insert(prev, p.0@, match p.1 {
                SchemaRef::Reference(r) => gen_ref(comps, r@, opt, vis, depth + 1),
                SchemaRef::Item(b) => gen(comps, *b, example_required(*b), opt, vis, depth + 1),
            })
        }
    }
}

/// The members of the first parts of an `allOf`: those of each part whose
/// example is an object, merged.
pub open spec fn allof_members(comps: Seq<(String, SchemaRef)>, parts: Seq<SchemaRef>, opt: bool, vis: Seq<Seq<char>>, depth: nat) -> Seq<(Seq<char>, JsonView)>
    decreases budget(depth), 0nat, parts,
{
    if depth > 3 || parts.len() == 0 {
        seq![]
    } else {
        let prev = allof_members(comps, parts.subrange(0, parts.len() - 1), opt, vis, depth);
        match parts[parts.len() - 1] {
            SchemaRef::Item(b) => match gen(comps, *b, example_required(*b), opt, vis, depth + 1) {
                JsonView::Object(fs) => obj_extend(prev, fs),
                _ => prev,
            },
            SchemaRef::Reference(r) => match variant_schema(comps, SchemaRef::Reference(r)) {
                Some(t) => match gen(comps, t, example_required(t), opt, vis, depth + 1) {
                    JsonView::Object(fs) => obj_extend(prev, fs),
                    _ => prev,
                },
                None => prev,
            },
        }
    }
}

fn example_required_exec(s: &SchemaNode) -> (r: Vec<String>)
    ensures
        texts(r@) == example_required(*s),
{
    match &s.kind {
        SchemaKind::Object { required, .. } => copy_texts(required),
        SchemaKind::Any { required, .. } => copy_texts(required),
        _ => {
            let r: Vec<String> = Vec::new();
            assert(texts(r@) =~= example_required(*s));
            r
        },
    }
}

fn first_some_exec(v: &Vec<Option<String>>) -> (r: Option<String>)
    ensures
        opt_view(r) == first_some(v@),
{
    let mut i: usize = 0;
    assert(v@.skip(0) =~= v@);
    while i < v.len()
        invariant
            i <= v.len(),
            first_some(v@) == first_some(v@.skip(i as int)),
        decreases v.len() - i,
    {
        assert(v@.skip(i as int)[0] == v@[i as int]);
        match &v[i] {
            Some(x) => return Some(owned(x.as_str())),
            None => {},
        }
        assert(v@.skip(i as int).drop_first() =~= v@.skip(i + 1));
        i = i + 1;
    }
    None
}

fn placeholder_exec(f: &StringFormat) -> (r: String)
    ensures
        r@ == placeholder(*f),
{
    match f {
        StringFormat::DateTime => owned("2024-01-15T10:30:00Z"),
        StringFormat::Date => owned("2024-01-15"),
        StringFormat::Unknown(x) => {
            if str_eq(x.as_str(), "uuid") {
                owned("550e8400-e29b-41d4-a716-446655440000")
            } else if str_eq(x.as_str(), "email") {
                owned("user@example.com")
            } else if str_eq(x.as_str(), "uri") || str_eq(x.as_str(), "url") {
                owned("https://example.com")
            } else {
                owned("string")
            }
        },
        _ => owned("string"),
    }
}

fn contains_name(v: &Vec<String>, s: &str) -> (r: bool)
    ensures
        r == texts(v@).contains(s@),
{
    let mut k: usize = 0;
    while k < v.len()
        invariant
            k <= v.len(),
            forall|j: int| 0 <= j < k ==> v@[j]@ != s@,
        decreases v.len() - k,
    {
        if str_eq(v[k].as_str(), s) {
            assert(texts(v@)[k as int] == s@);
            return true;
        }
        k = k + 1;
    }
    proof {
        if texts(v@).contains(s@) {
            let j = choose|j: int| 0 <= j < texts(v@).len() && texts(v@)[j] == s@;
            assert(v@[j]@ == s@);
        }
    }
    false
}

fn gen_exec(comps: &Vec<(String, SchemaRef)>, s: &SchemaNode, req: &Vec<String>, opt: bool, vis: &Vec<String>, depth: usize) -> (r: JsonValue)
    ensures
        jview(r) == gen(comps@, *s, texts(req@), opt, texts(vis@), depth as nat),
    decreases budget(depth as nat), 0nat, *s,
{
    if depth > 3 {
        return JsonValue::Null;
    }
    match &s.example {
        Some(e) => return clone_json(e),
        None => {},
    }
    match &s.kind {
        SchemaKind::Object { properties, .. } => JsonValue::Object(obj_members_exec(comps, properties, req, opt, vis, depth)),
        SchemaKind::Any { properties, typ, .. } => {
            if properties.len() > 0 {
                JsonValue::Object(obj_members_exec(comps, properties, req, opt, vis, depth))
            } else {
                let is_bool = match typ {
                    Some(t) => str_eq(t.as_str(), "boolean"),
                    None => false,
                };
                if is_bool { JsonValue::Bool(true) } else { JsonValue::Null }
            }
        },
        SchemaKind::String { enumeration, format, .. } => match first_some_exec(enumeration) {
            Some(x) => JsonValue::Str(x),
            None => JsonValue::Str(placeholder_exec(format)),
        },
        SchemaKind::Integer { .. } => JsonValue::Number(owned("0")),
        SchemaKind::Number { .. } => JsonValue::Number(owned("0.0")),
        SchemaKind::Boolean => JsonValue::Bool(true),
        SchemaKind::Array { items, .. } => {
            let item = match items {
                None => JsonValue::Null,
                Some(SchemaRef::Reference(x)) => gen_ref_exec(comps, x.as_str(), opt, vis, depth + 1),
                Some(SchemaRef::Item(b)) => {
                    let rq = example_required_exec(&**b);
                    gen_exec(comps, &**b, &rq, opt, vis, depth + 1)
                },
            };
            let ghost iv = jview(item);
            let v = vec![item];
            proof {
                lemma_jviews(v@);
                assert(jviews(v@) =~= seq![iv]);
            }
            JsonValue::Array(v)
        },
        SchemaKind::AllOf(parts) => JsonValue::Object(allof_members_exec(comps, parts, opt, vis, depth)),
        SchemaKind::OneOf(vs) => first_variant_exec(comps, vs, opt, vis, depth),
        SchemaKind::AnyOf(vs) => first_variant_exec(comps, vs, opt, vis, depth),
        SchemaKind::Not => JsonValue::Null,
    }
}

fn first_variant_exec(comps: &Vec<(String, SchemaRef)>, vs: &Vec<SchemaRef>, opt: bool, vis: &Vec<String>, depth: usize) -> (r: JsonValue)
    requires
        depth <= 3,
    ensures
        jview(r) == (if vs@.len() > 0 {
            match vs@[0] {
                SchemaRef::Item(b) => gen(comps@, *b, example_required(*b), opt, texts(vis@), (depth + 1) as nat),
                SchemaRef::Reference(x) => match variant_schema(comps@, SchemaRef::Reference(x)) {
                    Some(t) => gen(comps@, t, example_required(t), opt, texts(vis@), (depth + 1) as nat),
                    None => JsonView::Object(seq![]),
                },
            }
        } else {
            JsonView::Object(seq![])
        }),
    decreases budget(depth as nat), 0nat, vs@,
{
    let empty: Vec<(String, JsonValue)> = Vec::new();
    proof { lemma_jmembers(empty@); }
    assert(jmembers(empty@) =~= Seq::<(Seq<char>, JsonView)>::empty());
    if vs.len() == 0 {
        return JsonValue::Object(empty);
    }
    match &vs[0] {
        SchemaRef::Item(b) => {
            let rq = example_required_exec(&**b);
            gen_exec(comps, &**b, &rq, opt, vis, depth + 1)
        },
        SchemaRef::Reference(x) => match resolve_variant(comps, &vs[0]) {
            Some(t) => {
                let rq = example_required_exec(t);
                gen_exec(comps, t, &rq, opt, vis, depth + 1)
            },
            None => JsonValue::Object(empty),
        },
    }
}

fn gen_ref_exec(comps: &Vec<(String, SchemaRef)>, r: &str, opt: bool, vis: &Vec<String>, d: usize) -> (out: JsonValue)
    ensures
        jview(out) == gen_ref(comps@, r@, opt, texts(vis@), d as nat),
    decreases budget(d as nat), 1nat, r@,
{
    match schema_name_from_ref(r) {
        None => JsonValue::Null,
        Some(n) => {
            if contains_name(vis, n) {
                JsonValue::Null
            } else {
                match find_component(comps, n) {
                    Some(t) => {
                        let mut v2 = copy_texts(vis);
                        push_text(&mut v2, owned(n));
                        let rq = example_required_exec(t);
                        gen_exec(comps, t, &rq, opt, &v2, d)
                    },
                    None => JsonValue::Null,
                }
            }
        },
    }
}

fn obj_members_exec(comps: &Vec<(String, SchemaRef)>, props: &Vec<(String, SchemaRef)>, req: &Vec<String>, opt: bool, vis: &Vec<String>, depth: usize) -> (r: Vec<(String, JsonValue)>)
    ensures
        jmembers(r@) == obj_members(comps@, props@, texts(req@), opt, texts(vis@), depth as nat),
    decreases budget(depth as nat), 0nat, props@,
{
    let mut out: Vec<(String, JsonValue)> = Vec::new();
    proof { lemma_jmembers(out@); }
    if depth > 3 {
        assert(jmembers(out@) =~= Seq::<(Seq<char>, JsonView)>::empty());
        return out;
    }
    let mut i: usize = 0;
    assert(props@.subrange(0, 0) =~= Seq::<(String, SchemaRef)>::empty());
    assert(jmembers(out@) =~= Seq::<(Seq<char>, JsonView)>::empty());
    while i < props.len()
        invariant
            i <= props.len(),
            depth <= 3,
            jmembers(out@) == obj_members(comps@, props@.subrange(0, i as int), texts(req@), opt, texts(vis@), depth as nat),
        decreases props.len() - i,
    {
        proof {
            let t = props@.subrange(0, i + 1);
            assert(t.subrange(0, t.len() - 1) =~= props@.subrange(0, i as int));
            assert(t[t.len() - 1] == props@[i as int]);
        }
        let name = &props[i].0;
        if opt || contains_name(req, name.as_str()) {
            let val = match &props[i].1 {
                SchemaRef::Reference(x) => gen_ref_exec(comps, x.as_str(), opt, vis, depth + 1),
                SchemaRef::Item(b) => {
                    proof {
                        assert(decreases_to!(props@ => props@[i as int]));
                        assert(decreases_to!(props@[i as int] => props@[i as int].1));
                    }
                    let rq = example_required_exec(&**b);
                    gen_exec(comps, &**b, &rq, opt, vis, depth + 1)
                },
            };
            obj_insert_exec(&mut out, owned(name.as_str()), val);
        }
        i = i + 1;
    }
    assert(props@.subrange(0, props@.len() as int) =~= props@);
    out
}

fn allof_members_exec(comps: &Vec<(String, SchemaRef)>, parts: &Vec<SchemaRef>, opt: bool, vis: &Vec<String>, depth: usize) -> (r: Vec<(String, JsonValue)>)
    ensures
        jmembers(r@) == allof_members(comps@, parts@, opt, texts(vis@), depth as nat),
    decreases budget(depth as nat), 0nat, parts@,
{
    let mut out: Vec<(String, JsonValue)> = Vec::new();
    proof { lemma_jmembers(out@); }
    assert(jmembers(out@) =~= Seq::<(Seq<char>, JsonView)>::empty());
    if depth > 3 {
        return out;
    }
    let mut i: usize = 0;
    assert(parts@.subrange(0, 0) =~= Seq::<SchemaRef>::empty());
    while i < parts.len()
        invariant
            i <= parts.len(),
            depth <= 3,
            jmembers(out@) == allof_members(comps@, parts@.subrange(0, i as int), opt, texts(vis@), depth as nat),
        decreases parts.len() - i,
    {
        proof {
            let t = parts@.subrange(0, i + 1);
            assert(t.subrange(0, t.len() - 1) =~= parts@.subrange(0, i as int));
            assert(t[t.len() - 1] == parts@[i as int]);
        }
        let member = match &parts[i] {
            SchemaRef::Item(b) => {
                proof {
                    assert(decreases_to!(parts@ => parts@[i as int]));
                }
                let rq = example_required_exec(&**b);
                Some(gen_exec(comps, &**b, &rq, opt, vis, depth + 1))
            },
            SchemaRef::Reference(_) => match resolve_variant(comps, &parts[i]) {
                Some(t) => {
                    let rq = example_required_exec(t);
                    Some(gen_exec(comps, t, &rq, opt, vis, depth + 1))
                },
                None => None,
            },
        };
        match member {
            Some(JsonValue::Object(fs)) => obj_extend_exec(&mut out, fs),
            _ => {},
        }
        i = i + 1;
    }
    assert(parts@.subrange(0, parts@.len() as int) =~= parts@);
    out
}

// ───────────────────────── examples of named schemas ─────────────────────────

/// The first mapping key whose target names the schema.
pub open spec fn disc_key(mapping: Seq<(String, String)>, name: Seq<char>) -> Option<Seq<char>>
    decreases mapping.len(),
{
    if mapping.len() == 0 {
        None
    } else if mapped_name(mapping[0].1@) == name {
        Some(mapping[0].0@)
    } else {
        disc_key(mapping.drop_first(), name)
    }
}

/// `m` with, for each part of an `allOf` that references a schema with a
/// discriminator mapping a key to `name`, that discriminator's property set
/// to the key.
pub open spec fn disc_fix(comps: Seq<(String, SchemaRef)>, parts: Seq<SchemaRef>, name: Seq<char>, m: Seq<(Seq<char>, JsonView)>) -> Seq<(Seq<char>, JsonView)>
    decreases parts.len(),
{
    if parts.len() == 0 {
        m
    } else {
        let prev = disc_fix(comps, parts.drop_last(), name, m);
        match parts.last() {
            SchemaRef::Reference(r) => match resolve_ref(comps, r@) {
                Some(p) => match p.discriminator {
                    Some(d) => match disc_key(d.1@, name) {
                        Some(k) => obj_insert(prev, d.0@, JsonView::Str(k)),
                        None => prev,
                    },
                    None => prev,
                },
                None => prev,
            },
            SchemaRef::Item(_) => prev,
        }
    }
}

/// The example of a schema found under `name`: generated from the top,
/// and for an `allOf` whose example is an object, each parent's
/// discriminator set to the key that maps to `name`.
pub open spec fn example_of(comps: Seq<(String, SchemaRef)>, s: SchemaNode, name: Seq<char>, opt: bool) -> JsonView {
    let v = gen(comps, s, example_required(s), opt, seq![], 0);
    match s.kind {
        SchemaKind::AllOf(parts) => match v {
            JsonView::Object(m) => JsonView::Object(disc_fix(comps, parts@, name, m)),
            _ => v,
        },
        _ => v,
    }
}

/// A schema's own `example` is what is generated for it, whatever else
/// it says (an `allOf` schema aside, whose parents' discriminator value is
/// then written into it).
pub proof fn lemma_given_example_wins(comps: Seq<(String, SchemaRef)>, s: SchemaNode, name: Seq<char>, opt: bool)
    requires
        s.example is Some,
        !(s.kind is AllOf),
    ensures
        match s.example {
            Some(e) => example_of(comps, s, name, opt) == jview(e),
            None => true,
        },
{
}

/// An array schema without an example of its own, within the depth limit,
/// whose items are an inline schema, gives an array of exactly one element:
/// the example generated for that item schema one level deeper (with its own
/// required properties). So items that are a plain string schema give a
/// string (the first enum value or the placeholder for its format), never
/// `null`, wherever the array stands.
pub proof fn lemma_inline_array_items(comps: Seq<(String, SchemaRef)>, s: SchemaNode, req: Seq<Seq<char>>, opt: bool, vis: Seq<Seq<char>>, depth: nat)
    requires
        depth <= 3,
        s.example is None,
        s.kind matches SchemaKind::Array { items, .. } && items matches Some(SchemaRef::Item(_)),
    ensures
        match s.kind {
            SchemaKind::Array { items: Some(SchemaRef::Item(b)), .. } => {
                &&& gen(comps, s, req, opt, vis, depth) == JsonView::Array(seq![gen(comps, *b, example_required(*b), opt, vis, depth + 1)])
                &&& (depth < 3 && b.example is None) ==> match b.kind {
                    SchemaKind::String { enumeration, format, .. } => gen(comps, s, req, opt, vis, depth) == JsonView::Array(seq![
                        JsonView::Str(match first_some(enumeration@) {
                            Some(x) => x,
                            None => placeholder(format),
                        }),
                    ]),
                    _ => true,
                }
            },
            _ => false,
        },
{
}

fn disc_key_exec(mapping: &Vec<(String, String)>, name: &str) -> (r: Option<String>)
    ensures
        opt_view(r) == disc_key(mapping@, name@),
{
    let mut i: usize = 0;
    assert(mapping@.skip(0) =~= mapping@);
    while i < mapping.len()
        invariant
            i <= mapping.len(),
            disc_key(mapping@, name@) == disc_key(mapping@.skip(i as int), name@),
        decreases mapping.len() - i,
    {
        assert(mapping@.skip(i as int)[0] == mapping@[i as int]);
        let target = match schema_name_from_ref(mapping[i].1.as_str()) {
            Some(n) => owned(n),
            None => owned(mapping[i].1.as_str()),
        };
        if str_eq(target.as_str(), name) {
            return Some(owned(mapping[i].0.as_str()));
        }
        assert(mapping@.skip(i as int).drop_first() =~= mapping@.skip(i + 1));
        i = i + 1;
    }
    None
}

/// An example for the schema of that name (see `find_schema`), with only
/// its required properties unless `include_optional`; `None` where there is
/// no such schema.
pub fn generate_example(comps: &Vec<(String, SchemaRef)>, schema_name: &str, include_optional: bool) -> (r: Option<JsonValue>)
    ensures
        match r {
            None => spec_find_schema(comps@, schema_name@) is None,
            Some(v) => match spec_find_schema(comps@, schema_name@) {
                Some(p) => jview(v) == example_of(comps@, p.1, schema_name@, include_optional),
                None => false,
            },
        },
{
    let (_, schema) = match find_schema(comps, schema_name) {
        Some(p) => p,
        None => return None,
    };
    let req = example_required_exec(schema);
    let vis: Vec<String> = Vec::new();
    assert(texts(vis@) =~= Seq::<Seq<char>>::empty());
    let value = gen_exec(comps, schema, &req, include_optional, &vis, 0);
    match &schema.kind {
        SchemaKind::AllOf(parts) => match value {
            JsonValue::Object(fs) => {
                let mut m = fs;
                let ghost m0 = jmembers(m@);
                let mut i: usize = 0;
                while i < parts.len()
                    invariant
                        i <= parts.len(),
                        jmembers(m@) == disc_fix(comps@, parts@.take(i as int), schema_name@, m0),
                    decreases parts.len() - i,
                {
                    proof {
                        assert(parts@.take(i + 1).drop_last() =~= parts@.take(i as int));
                        assert(parts@.take(i + 1).last() == parts@[i as int]);
                    }
                    match &parts[i] {
                        SchemaRef::Reference(x) => match resolve_reference(comps, x.as_str()) {
                            Some(p) => match &p.discriminator {
                                Some((prop, mapping)) => match disc_key_exec(mapping, schema_name) {
                                    Some(k) => obj_insert_exec(&mut m, owned(prop.as_str()), JsonValue::Str(k)),
                                    None => {},
                                },
                                None => {},
                            },
                            None => {},
                        },
                        SchemaRef::Item(_) => {},
                    }
                    i = i + 1;
                }
                assert(parts@.take(parts@.len() as int) =~= parts@);
                Some(JsonValue::Object(m))
            },
            other => Some(other),
        },
        _ => Some(value),
    }
}

} // verus!
