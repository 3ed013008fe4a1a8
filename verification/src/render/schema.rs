//! Schema detail: header, composition, discriminator, the field table, and
//! the schemas it refers to without expanding them, listed once each in
//! order.
use vstd::prelude::*;
use crate::strutil::{
    concat_map, decimal, join, len_bytes, lemma_concat_map_take, lemma_max_of_take, max_of,
    pad_right, push_padded, push_str, push_usize, str_len, to_chars,
};
use crate::models::resource::Field;
use crate::models::schema::{Composition, DiscriminatorInfo, SchemaModel};
use crate::render::fields::{field_table, render_fields_section};
use crate::render::sanitize::{
    join_san, only_if, opt_text, owned, push_join_san, push_san, san, sanitize, str_eq,
};

verus! {

// ───────────────────────── order on names ─────────────────────────

/// `a` comes before `b` in character order (what sorting `&str` gives:
/// byte order of UTF-8 is the order of the characters).
pub open spec fn lex_lt(a: Seq<char>, b: Seq<char>) -> bool
    decreases a.len(),
{
    if a.len() == 0 {
        b.len() > 0
    } else if b.len() == 0 {
        false
    } else if a[0] != b[0] {
        a[0] < b[0]
    } else {
        lex_lt(a.drop_first(), b.drop_first())
    }
}

/// Every name comes before the ones after it: sorted, each once.
pub open spec fn strictly_sorted(s: Seq<Seq<char>>) -> bool {
    forall|i: int, j: int| 0 <= i < j < s.len() ==> lex_lt(#[trigger] s[i], #[trigger] s[j])
}

pub proof fn lemma_lex_irreflexive(a: Seq<char>)
    ensures
        !lex_lt(a, a),
    decreases a.len(),
{
    if a.len() > 0 {
        lemma_lex_irreflexive(a.drop_first());
    }
}

pub proof fn lemma_lex_transitive(a: Seq<char>, b: Seq<char>, c: Seq<char>)
    requires
        lex_lt(a, b),
        lex_lt(b, c),
    ensures
        lex_lt(a, c),
    decreases a.len(),
{
    if a.len() > 0 && b.len() > 0 && c.len() > 0 && a[0] == b[0] && b[0] == c[0] {
        lemma_lex_transitive(a.drop_first(), b.drop_first(), c.drop_first());
    }
}

pub proof fn lemma_lex_total(a: Seq<char>, b: Seq<char>)
    requires
        a != b,
    ensures
        lex_lt(a, b) || lex_lt(b, a),
    decreases a.len(),
{
    if a.len() > 0 && b.len() > 0 && a[0] == b[0] {
        if a.drop_first() == b.drop_first() {
            assert(a =~= seq![a[0]] + a.drop_first());
            assert(b =~= seq![b[0]] + b.drop_first());
        }
        lemma_lex_total(a.drop_first(), b.drop_first());
    } else if a.len() > 0 && b.len() > 0 {
    } else if a.len() == 0 && b.len() == 0 {
        assert(a =~= b);
    }
}

pub proof fn lemma_lex_asymmetric(a: Seq<char>, b: Seq<char>)
    requires
        lex_lt(a, b),
    ensures
        !lex_lt(b, a),
{
    if lex_lt(b, a) {
        lemma_lex_transitive(a, b, a);
        lemma_lex_irreflexive(a);
    }
}

/// Two sorted lists of the same names are the same list.
pub proof fn lemma_sorted_unique(a: Seq<Seq<char>>, b: Seq<Seq<char>>)
    requires
        strictly_sorted(a),
        strictly_sorted(b),
        a.to_set() == b.to_set(),
    ensures
        a == b,
    decreases a.len(),
{
    if a.len() == 0 {
        if b.len() > 0 {
            assert(b.to_set().contains(b[0]));
        }
        assert(a =~= b);
    } else {
        assert(a.to_set().contains(a[0]));
        if b.len() == 0 {
            assert(false);
        }
        assert(b.to_set().contains(a[0]));
        assert(a.to_set().contains(b[0]));
        let j = choose|j: int| 0 <= j < b.len() && b[j] == a[0];
        let i = choose|i: int| 0 <= i < a.len() && a[i] == b[0];
        if a[0] != b[0] {
            assert(i > 0 && j > 0);
            assert(lex_lt(a[0], a[i]));
            assert(lex_lt(b[0], b[j]));
            lemma_lex_asymmetric(a[0], b[0]);
        }
        let ta = a.drop_first();
        let tb = b.drop_first();
        assert forall|x: Seq<char>| ta.to_set().contains(x) <==> tb.to_set().contains(x) by {
            if ta.to_set().contains(x) {
                let k = choose|k: int| 0 <= k < ta.len() && ta[k] == x;
                assert(a[k + 1] == x);
                assert(lex_lt(a[0], x));
                lemma_lex_irreflexive(x);
                assert(a.to_set().contains(x));
                assert(b.to_set().contains(x));
                let m = choose|m: int| 0 <= m < b.len() && b[m] == x;
                assert(m != 0);
                assert(tb[m - 1] == x);
            }
            if tb.to_set().contains(x) {
                let k = choose|k: int| 0 <= k < tb.len() && tb[k] == x;
                assert(b[k + 1] == x);
                assert(lex_lt(b[0], x));
                lemma_lex_irreflexive(x);
                assert(b.to_set().contains(x));
                assert(a.to_set().contains(x));
                let m = choose|m: int| 0 <= m < a.len() && a[m] == x;
                assert(m != 0);
                assert(ta[m - 1] == x);
            }
        }
        assert(ta.to_set() =~= tb.to_set());
        lemma_sorted_unique(ta, tb);
        assert(a =~= seq![a[0]] + ta);
        assert(b =~= seq![b[0]] + tb);
    }
}


proof fn lemma_lex_skip(a: Seq<char>, b: Seq<char>, i: int)
    requires
        0 <= i <= a.len(),
        i <= b.len(),
        forall|k: int| 0 <= k < i ==> a[k] == b[k],
    ensures
        lex_lt(a, b) == lex_lt(a.skip(i), b.skip(i)),
    decreases i,
{
    if i > 0 {
        assert(a[0] == b[0]);
        lemma_lex_skip(a.drop_first(), b.drop_first(), i - 1);
        assert(a.drop_first().skip(i - 1) =~= a.skip(i));
        assert(b.drop_first().skip(i - 1) =~= b.skip(i));
    } else {
        assert(a.skip(0) =~= a);
        assert(b.skip(0) =~= b);
    }
}

/// Whether `a` comes before `b` in character order.
pub fn name_less(a: &str, b: &str) -> (r: bool)
    ensures
        r == lex_lt(a@, b@),
{
    let x = to_chars(a);
    let y = to_chars(b);
    let mut i: usize = 0;
    while i < x.len() && i < y.len() && x[i] == y[i]
        invariant
            i <= x.len(),
            i <= y.len(),
            x@ == a@,
            y@ == b@,
            forall|k: int| 0 <= k < i ==> x@[k] == y@[k],
        decreases x.len() - i,
    {
        i = i + 1;
    }
    proof { lemma_lex_skip(x@, y@, i as int); }
    if i == x.len() {
        y.len() > i
    } else if i == y.len() {
        false
    } else {
        assert(x@.skip(i as int)[0] == x@[i as int]);
        assert(y@.skip(i as int)[0] == y@[i as int]);
        x[i] < y[i]
    }
}

pub open spec fn names_of(v: Seq<String>) -> Seq<Seq<char>> {
    v.map_values(|s: String| s@)
}

/// Adds `name` to a sorted list of names, where it is not there yet.
pub fn insert_name(v: &mut Vec<String>, name: &str)
    requires
        strictly_sorted(names_of(old(v)@)),
    ensures
        strictly_sorted(names_of(final(v)@)),
        names_of(final(v)@).to_set() == names_of(old(v)@).to_set().insert(name@),
{
    let ghost old_names = names_of(v@);
    let mut p: usize = 0;
    while p < v.len() && name_less(v[p].as_str(), name)
        invariant
            p <= v.len(),
            v@ == old(v)@,
            old_names == names_of(v@),
            forall|k: int| 0 <= k < p ==> lex_lt(#[trigger] old_names[k], name@),
        decreases v.len() - p,
    {
        p = p + 1;
    }
    if p < v.len() && str_eq(v[p].as_str(), name) {
        assert(old_names.to_set().insert(name@) =~= old_names.to_set()) by {
            assert(old_names[p as int] == name@);
        }
        return;
    }
    proof {
        if p < v.len() {
            lemma_lex_total(old_names[p as int], name@);
        }
    }
    let s = owned(name);
    v.insert(p, s);
    proof {
        let nn = names_of(v@);
        assert(nn =~= old_names.insert(p as int, name@));
        assert forall|i: int, j: int| 0 <= i < j < nn.len() implies lex_lt(#[trigger] nn[i], #[trigger] nn[j]) by {
            if j < p {
                assert(nn[i] == old_names[i] && nn[j] == old_names[j]);
            } else if j == p {
                assert(nn[i] == old_names[i]);
            } else if i == p {
                assert(nn[j] == old_names[j - 1]);
                if j - 1 > p {
                    assert(lex_lt(old_names[p as int], old_names[j - 1]));
                    lemma_lex_transitive(name@, old_names[p as int], old_names[j - 1]);
                }
            } else if i < p {
                assert(nn[i] == old_names[i] && nn[j] == old_names[j - 1]);
                if j - 1 >= p {
                    lemma_lex_transitive(old_names[i], name@, old_names[p as int]);
                    if j - 1 > p {
                        lemma_lex_transitive(old_names[i], old_names[p as int], old_names[j - 1]);
                    }
                }
            } else {
                assert(nn[i] == old_names[i - 1] && nn[j] == old_names[j - 1]);
            }
        }
        assert(nn.to_set() =~= old_names.to_set().insert(name@)) by {
            assert forall|x: Seq<char>| nn.to_set().contains(x) <==> old_names.to_set().insert(name@).contains(x) by {
                if nn.to_set().contains(x) {
                    let k = choose|k: int| 0 <= k < nn.len() && nn[k] == x;
                    if k < p {
                        assert(old_names[k] == x);
                    } else if k > p {
                        assert(old_names[k - 1] == x);
                    }
                }
                if old_names.to_set().contains(x) {
                    let k = choose|k: int| 0 <= k < old_names.len() && old_names[k] == x;
                    if k < p {
                        assert(nn[k] == x);
                    } else {
                        assert(nn[k + 1] == x);
                    }
                }
                if x == name@ {
                    assert(nn[p as int] == x);
                }
            }
        }
    }
}


// ───────────────────────── unexpanded references ─────────────────────────

/// The schema a field refers to, where its fields were not expanded.
pub open spec fn own_ref(f: Field) -> Set<Seq<char>> {
    match f.nested_schema_name {
        Some(n) => if f.nested_fields@.len() == 0 { set![n@] } else { Set::empty() },
        None => Set::empty(),
    }
}

/// The schemas that a field, or any field nested in it, refers to without
/// having been expanded.
pub open spec fn field_refs(f: Field) -> Set<Seq<char>>
    decreases f,
{
    own_ref(f) + fields_refs(f.nested_fields@)
}

/// The unexpanded references of all the fields, at any depth.
pub open spec fn fields_refs(fs: Seq<Field>) -> Set<Seq<char>>
    decreases fs,
{
    if fs.len() == 0 {
        Set::empty()
    } else {
        fields_refs(fs.subrange(0, fs.len() - 1)) + field_refs(fs[fs.len() - 1])
    }
}

/// The unexpanded references in character order, each once.
pub open spec fn sorted_refs(fs: Seq<Field>) -> Seq<Seq<char>> {
    sorted_set(fields_refs(fs))
}

/// The names of a set in character order, each once.
pub open spec fn sorted_set(names: Set<Seq<char>>) -> Seq<Seq<char>> {
    choose|s: Seq<Seq<char>>| strictly_sorted(s) && s.to_set() == names
}

/// A sorted list is the sorted form of its own set.
pub proof fn lemma_sorted_set(v: Seq<Seq<char>>)
    requires
        strictly_sorted(v),
    ensures
        v == sorted_set(v.to_set()),
{
    let c = sorted_set(v.to_set());
    assert(strictly_sorted(v) && v.to_set() == v.to_set());
    lemma_sorted_unique(v, c);
}

fn collect_into(fields: &[Field], acc: &mut Vec<String>)
    requires
        strictly_sorted(names_of(old(acc)@)),
    ensures
        strictly_sorted(names_of(final(acc)@)),
        names_of(final(acc)@).to_set() == names_of(old(acc)@).to_set() + fields_refs(fields@),
    decreases fields@,
{
    let ghost start = names_of(acc@).to_set();
    let mut i: usize = 0;
    while i < fields.len()
        invariant
            i <= fields.len(),
            strictly_sorted(names_of(acc@)),
            names_of(acc@).to_set() == start + fields_refs(fields@.take(i as int)),
        decreases fields.len() - i,
    {
        let f = &fields[i];
        proof {
            let t = fields@.take(i + 1);
            assert(t.subrange(0, t.len() - 1) =~= fields@.take(i as int));
            assert(t[t.len() - 1] == fields@[i as int]);
            assert(fields_refs(t) == fields_refs(fields@.take(i as int)) + field_refs(fields@[i as int]));
        }
        let ghost before = names_of(acc@).to_set();
        match &f.nested_schema_name {
            Some(n) => {
                if f.nested_fields.len() == 0 {
                    insert_name(acc, n.as_str());
                }
            },
            None => {},
        }
        assert(names_of(acc@).to_set() =~= before + own_ref(*f));
        let ghost mid = names_of(acc@).to_set();
        proof {
            assert(decreases_to!(fields@ => fields@[i as int]));
            assert(decreases_to!(fields@[i as int] => fields@[i as int].nested_fields));
        }
        collect_into(f.nested_fields.as_slice(), acc);
        assert(names_of(acc@).to_set() =~= start + fields_refs(fields@.take(i + 1)));
        i = i + 1;
    }
    assert(fields@.take(fields@.len() as int) =~= fields@);
}

/// The schemas that the fields refer to without expanding them, at any
/// depth, in character order and each once.
pub fn collect_unexpanded_refs(fields: &[Field]) -> (r: Vec<String>)
    ensures
        strictly_sorted(names_of(r@)),
        names_of(r@).to_set() == fields_refs(fields@),
        names_of(r@) == sorted_refs(fields@),
{
    let mut acc: Vec<String> = Vec::new();
    assert(names_of(acc@).to_set() =~= Set::empty());
    collect_into(fields, &mut acc);
    assert(names_of(acc@).to_set() =~= fields_refs(fields@));
    proof { lemma_sorted_set(names_of(acc@)); }
    acc
}


// ───────────────────────── schema detail ─────────────────────────

pub open spec fn schema_header(m: SchemaModel, expanded: bool) -> Seq<char> {
    if expanded {
        "Schema: "@ + san(m.name@) + " (expanded)\n"@
    } else {
        match m.base_type {
            Some(bt) => "Schema: "@ + san(m.name@) + " ("@ + bt@ + ")\n"@,
            None => "Schema: "@ + san(m.name@) + "\n"@,
        }
    }
}

pub open spec fn variant_line(v: String) -> Seq<char> {
    "    phyll --schemas "@ + san(v@) + "\n"@
}

pub open spec fn composition_text(c: Composition) -> Seq<char> {
    match c {
        Composition::AllOf => "\nComposition: allOf (fields merged below)\n"@,
        Composition::OneOf(vs) => "\nComposition: oneOf\n"@ + "  One of:\n"@
            + concat_map(vs@, |v: String| variant_line(v)),
        Composition::AnyOf(vs) => "\nComposition: anyOf\n"@ + "  Any of:\n"@
            + concat_map(vs@, |v: String| variant_line(v)),
        Composition::Enum(vs) => "\nEnum values ("@ + decimal(vs@.len()) + "):\n  ["@
            + join_san(vs@, ", "@) + "]\n"@,
    }
}

pub open spec fn mapping_width(ms: Seq<(String, String)>) -> nat {
    max_of(ms, |kv: (String, String)| len_bytes(kv.0@))
}

pub open spec fn subtype_line(kv: (String, String), w: nat, a: Seq<char>) -> Seq<char> {
    "    "@ + pad_right(san(kv.0@), w) + "  "@ + a + " phyll --schemas "@ + san(kv.1@) + "\n"@
}

pub open spec fn discriminator_text(d: DiscriminatorInfo, a: Seq<char>) -> Seq<char> {
    "\nDiscriminator: "@ + san(d.property_name@) + "\n"@ + only_if(d.mapping@.len() > 0,
        "  Subtypes:\n"@ + concat_map(d.mapping@,
            |kv: (String, String)| subtype_line(kv, mapping_width(d.mapping@), a)))
}

/// The names that are shown: all of them, or the first `limit` where there
/// are more.
pub open spec fn shown_names(names: Seq<Seq<char>>, limit: Option<usize>) -> Seq<Seq<char>> {
    match limit {
        Some(l) => if l < names.len() { names.take(l as int) } else { names },
        None => names,
    }
}

pub open spec fn related_line(n: Seq<char>) -> Seq<char> {
    "  phyll --schemas "@ + san(n) + "\n"@
}

/// The list of related schemas, cut at `limit` with a count of the rest.
pub open spec fn related_text(names: Seq<Seq<char>>, limit: Option<usize>) -> Seq<char> {
    only_if(names.len() > 0, "\nRelated schemas:\n"@
        + concat_map(shown_names(names, limit), |n: Seq<char>| related_line(n))
        + (match limit {
            Some(l) => only_if(l < names.len(), "  ...and "@ + decimal((names.len() - l) as nat) + " more\n"@),
            None => seq![],
        }))
}

/// Header, title where it differs from the name, and description.
pub open spec fn schema_head(m: SchemaModel, expanded: bool) -> Seq<char> {
    schema_header(m, expanded)
        + (match m.title {
            Some(t) => only_if(t@ != m.name@, "Title: "@ + san(t@) + "\n"@),
            None => seq![],
        })
        + (match m.description {
            Some(d) => san(d@) + "\n"@,
            None => seq![],
        })
}

/// Composition, discriminator and fields.
pub open spec fn schema_body(m: SchemaModel, a: Seq<char>) -> Seq<char> {
    (match m.composition {
        Some(c) => composition_text(c),
        None => seq![],
    })
        + (match m.discriminator {
            Some(d) => discriminator_text(d, a),
            None => seq![],
        })
        + only_if(m.fields@.len() > 0, "\nFields:\n"@ + field_table(m.fields@, "  "@))
}

/// Related schemas and external documentation.
pub open spec fn schema_tail(m: SchemaModel, related_limit: Option<usize>) -> Seq<char> {
    related_text(sorted_refs(m.fields@), related_limit)
        + (match m.external_docs {
            Some(x) => "\nSee also: "@ + san(x.url@) + "\n"@ + (match x.description {
                Some(d) => "  "@ + san(d@) + "\n"@,
                None => seq![],
            }),
            None => seq![],
        })
}

pub open spec fn spec_render_schema_detail(
    m: SchemaModel,
    expanded: bool,
    related_limit: Option<usize>,
    is_tty: bool,
) -> Seq<char> {
    schema_head(m, expanded) + schema_body(m, if is_tty { "→"@ } else { "->"@ })
        + schema_tail(m, related_limit)
}

fn push_variants(out: &mut String, vs: &Vec<String>)
    ensures
        final(out)@ == old(out)@ + concat_map(vs@, |v: String| variant_line(v)),
{
    let ghost start = out@;
    let mut i: usize = 0;
    while i < vs.len()
        invariant
            i <= vs.len(),
            out@ == start + concat_map(vs@.take(i as int), |v: String| variant_line(v)),
        decreases vs.len() - i,
    {
        proof { lemma_concat_map_take(vs@, i as int, |v: String| variant_line(v)); }
        let mut line = owned("    phyll --schemas ");
        push_san(&mut line, vs[i].as_str());
        push_str(&mut line, "\n");
        push_str(out, line.as_str());
        i = i + 1;
    }
    assert(vs@.take(vs@.len() as int) =~= vs@);
}

fn composition_exec(c: &Composition) -> (out: String)
    ensures
        out@ == composition_text(*c),
{
    match c {
        Composition::AllOf => owned("\nComposition: allOf (fields merged below)\n"),
        Composition::OneOf(vs) => {
            let mut out = owned("\nComposition: oneOf\n");
            push_str(&mut out, "  One of:\n");
            push_variants(&mut out, vs);
            out
        },
        Composition::AnyOf(vs) => {
            let mut out = owned("\nComposition: anyOf\n");
            push_str(&mut out, "  Any of:\n");
            push_variants(&mut out, vs);
            out
        },
        Composition::Enum(vs) => {
            let mut out = owned("\nEnum values (");
            push_usize(&mut out, vs.len());
            push_str(&mut out, "):\n  [");
            push_join_san(&mut out, vs.as_slice(), ", ");
            push_str(&mut out, "]\n");
            out
        },
    }
}

fn discriminator_exec(d: &DiscriminatorInfo, a: &str) -> (out: String)
    ensures
        out@ == discriminator_text(*d, a@),
{
    let mut out = owned("\nDiscriminator: ");
    push_san(&mut out, d.property_name.as_str());
    push_str(&mut out, "\n");
    if d.mapping.len() == 0 {
        assert(out@ =~= discriminator_text(*d, a@));
        return out;
    }
    push_str(&mut out, "  Subtypes:\n");
    let mut w: usize = 0;
    let mut i: usize = 0;
    while i < d.mapping.len()
        invariant
            i <= d.mapping.len(),
            w == max_of(d.mapping@.take(i as int), |kv: (String, String)| len_bytes(kv.0@)),
        decreases d.mapping.len() - i,
    {
        proof { lemma_max_of_take(d.mapping@, i as int, |kv: (String, String)| len_bytes(kv.0@)); }
        let l = str_len(d.mapping[i].0.as_str());
        if l > w {
            w = l;
        }
        i = i + 1;
    }
    assert(d.mapping@.take(d.mapping@.len() as int) =~= d.mapping@);
    let ghost start = out@;
    let mut i: usize = 0;
    while i < d.mapping.len()
        invariant
            i <= d.mapping.len(),
            w == mapping_width(d.mapping@),
            out@ == start + concat_map(d.mapping@.take(i as int),
                |kv: (String, String)| subtype_line(kv, mapping_width(d.mapping@), a@)),
        decreases d.mapping.len() - i,
    {
        proof {
            lemma_concat_map_take(d.mapping@, i as int,
                |kv: (String, String)| subtype_line(kv, mapping_width(d.mapping@), a@));
        }
        let kv = &d.mapping[i];
        let mut line = owned("    ");
        let k = sanitize(kv.0.as_str());
        push_padded(&mut line, k.as_str(), w);
        push_str(&mut line, "  ");
        push_str(&mut line, a);
        push_str(&mut line, " phyll --schemas ");
        push_san(&mut line, kv.1.as_str());
        push_str(&mut line, "\n");
        push_str(&mut out, line.as_str());
        i = i + 1;
    }
    assert(d.mapping@.take(d.mapping@.len() as int) =~= d.mapping@);
    out
}

fn related_exec(names: &Vec<String>, limit: Option<usize>) -> (out: String)
    ensures
        out@ == related_text(names_of(names@), limit),
{
    let ghost ns = names_of(names@);
    let total = names.len();
    if total == 0 {
        let out = String::new();
        assert(out@ =~= related_text(ns, limit));
        return out;
    }
    let mut shown = total;
    match limit {
        Some(l) => {
            if l < total {
                shown = l;
            }
        },
        None => {},
    }
    assert(shown_names(ns, limit) =~= ns.take(shown as int));
    let mut out = owned("\nRelated schemas:\n");
    let ghost start = out@;
    let mut i: usize = 0;
    while i < shown
        invariant
            i <= shown <= total == names@.len(),
            ns == names_of(names@),
            out@ == start + concat_map(ns.take(shown as int).take(i as int), |n: Seq<char>| related_line(n)),
        decreases shown - i,
    {
        proof { lemma_concat_map_take(ns.take(shown as int), i as int, |n: Seq<char>| related_line(n)); }
        let mut line = owned("  phyll --schemas ");
        push_san(&mut line, names[i].as_str());
        push_str(&mut line, "\n");
        push_str(&mut out, line.as_str());
        i = i + 1;
    }
    assert(ns.take(shown as int).take(shown as int) =~= ns.take(shown as int));
    let ghost m = out@;
    match limit {
        Some(l) => {
            if l < total {
                push_str(&mut out, "  ...and ");
                push_usize(&mut out, total - l);
                push_str(&mut out, " more\n");
            }
        },
        None => {},
    }
    assert(out@ =~= m + (match limit {
        Some(l) => only_if(l < ns.len(), "  ...and "@ + decimal((ns.len() - l) as nat) + " more\n"@),
        None => seq![],
    }));
    out
}

fn head_exec(model: &SchemaModel, expanded: bool) -> (out: String)
    ensures
        out@ == schema_head(*model, expanded),
{
    let mut out = owned("Schema: ");
    push_san(&mut out, model.name.as_str());
    if expanded {
        push_str(&mut out, " (expanded)\n");
    } else {
        match &model.base_type {
            Some(bt) => {
                push_str(&mut out, " (");
                push_str(&mut out, bt.as_str());
                push_str(&mut out, ")\n");
            },
            None => {
                push_str(&mut out, "\n");
            },
        }
    }
    let ghost m1 = out@;
    match &model.title {
        Some(t) => {
            if !str_eq(t.as_str(), model.name.as_str()) {
                push_str(&mut out, "Title: ");
                push_san(&mut out, t.as_str());
                push_str(&mut out, "\n");
            }
        },
        None => {},
    }
    assert(out@ =~= m1 + (match model.title {
        Some(t) => only_if(t@ != model.name@, "Title: "@ + san(t@) + "\n"@),
        None => seq![],
    }));
    let ghost m2 = out@;
    match &model.description {
        Some(d) => {
            push_san(&mut out, d.as_str());
            push_str(&mut out, "\n");
        },
        None => {},
    }
    assert(out@ =~= m2 + (match model.description {
        Some(d) => san(d@) + "\n"@,
        None => seq![],
    }));
    out
}

fn body_exec(model: &SchemaModel, a: &str) -> (out: String)
    ensures
        out@ == schema_body(*model, a@),
{
    let mut out = String::new();
    match &model.composition {
        Some(c) => {
            out = composition_exec(c);
        },
        None => {},
    }
    assert(out@ =~= (match model.composition {
        Some(c) => composition_text(c),
        None => seq![],
    }));
    let ghost m4 = out@;
    match &model.discriminator {
        Some(d) => {
            let t = discriminator_exec(d, a);
            push_str(&mut out, t.as_str());
        },
        None => {},
    }
    assert(out@ =~= m4 + (match model.discriminator {
        Some(d) => discriminator_text(d, a@),
        None => seq![],
    }));
    let ghost m5 = out@;
    if model.fields.len() > 0 {
        push_str(&mut out, "\nFields:\n");
        render_fields_section(&mut out, model.fields.as_slice());
    }
    assert(out@ =~= m5 + only_if(model.fields@.len() > 0, "\nFields:\n"@ + field_table(model.fields@, "  "@)));
    out
}

fn tail_exec(model: &SchemaModel, related_limit: Option<usize>) -> (out: String)
    ensures
        out@ == schema_tail(*model, related_limit),
{
    let names = collect_unexpanded_refs(model.fields.as_slice());
    let mut out = related_exec(&names, related_limit);
    let ghost m7 = out@;
    match &model.external_docs {
        Some(x) => {
            push_str(&mut out, "\nSee also: ");
            push_san(&mut out, x.url.as_str());
            push_str(&mut out, "\n");
            match &x.description {
                Some(d) => {
                    push_str(&mut out, "  ");
                    push_san(&mut out, d.as_str());
                    push_str(&mut out, "\n");
                },
                None => {},
            }
        },
        None => {},
    }
    assert(out@ =~= m7 + (match model.external_docs {
        Some(x) => "\nSee also: "@ + san(x.url@) + "\n"@ + (match x.description {
            Some(d) => "  "@ + san(d@) + "\n"@,
            None => seq![],
        }),
        None => seq![],
    }));
    out
}

/// Renders one schema: header and title, description, composition,
/// discriminator, fields, the schemas it refers to without expanding them
/// (at most `related_limit` of them), and external documentation.
pub fn render_schema_detail(
    model: &SchemaModel,
    _bin_name: &str,
    expanded: bool,
    related_limit: Option<usize>,
    is_tty: bool,
) -> (r: String)
    ensures
        r@ == spec_render_schema_detail(*model, expanded, related_limit, is_tty),
{
    let a = if is_tty { owned("→") } else { owned("->") };
    let mut out = head_exec(model, expanded);
    let b = body_exec(model, a.as_str());
    push_str(&mut out, b.as_str());
    let t = tail_exec(model, related_limit);
    push_str(&mut out, t.as_str());
    out
}

} // verus!
