//! JSON values as the example generator builds them.
use vstd::prelude::*;

verus! {

/// A JSON value. A number is held as its JSON text; an object's members
/// are in the order they were first inserted, each key once.
#[derive(Debug, PartialEq)]
pub enum JsonValue {
    Null,
    Bool(bool),
    Number(String),
    Str(String),
    Array(Vec<JsonValue>),
    Object(Vec<(String, JsonValue)>),
}

/// A JSON value as text and sequences: what `JsonValue` holds.
pub enum JsonView {
    Null,
    Bool(bool),
    Number(Seq<char>),
    Str(Seq<char>),
    Array(Seq<JsonView>),
    Object(Seq<(Seq<char>, JsonView)>),
}

pub open spec fn jview(v: JsonValue) -> JsonView
    decreases v, 0nat,
{
    match v {
        JsonValue::Null => JsonView::Null,
        JsonValue::Bool(b) => JsonView::Bool(b),
        JsonValue::Number(n) => JsonView::Number(n@),
        JsonValue::Str(s) => JsonView::Str(s@),
        JsonValue::Array(xs) => JsonView::Array(jviews(xs@)),
        JsonValue::Object(fs) => JsonView::Object(jmembers(fs@)),
    }
}

pub open spec fn jviews(s: Seq<JsonValue>) -> Seq<JsonView>
    decreases s, s.len(),
{
    if s.len() == 0 {
        seq![]
    } else {
        jviews(s.subrange(0, s.len() - 1)).push(jview(s[s.len() - 1]))
    }
}

pub open spec fn jmembers(s: Seq<(String, JsonValue)>) -> Seq<(Seq<char>, JsonView)>
    decreases s, s.len(),
{
    if s.len() == 0 {
        seq![]
    } else {
        jmembers(s.subrange(0, s.len() - 1)).push((s[s.len() - 1].0@, jview(s[s.len() - 1].1)))
    }
}

pub open spec fn opt_jview(o: Option<JsonValue>) -> Option<JsonView> {
    match o {
        Some(v) => Some(jview(v)),
        None => None,
    }
}

/// A copy of a JSON value.
pub fn clone_json(v: &JsonValue) -> (r: JsonValue)
    ensures
        jview(r) == jview(*v),
    decreases *v, 1nat,
{
    match v {
        JsonValue::Null => JsonValue::Null,
        JsonValue::Bool(b) => JsonValue::Bool(*b),
        JsonValue::Number(n) => JsonValue::Number(n.clone()),
        JsonValue::Str(s) => JsonValue::Str(s.clone()),
        JsonValue::Array(xs) => JsonValue::Array(clone_items(xs)),
        JsonValue::Object(fs) => JsonValue::Object(clone_members(fs)),
    }
}

fn clone_items(xs: &Vec<JsonValue>) -> (r: Vec<JsonValue>)
    ensures
        jviews(r@) == jviews(xs@),
    decreases xs@, 0nat,
{
    let mut out: Vec<JsonValue> = Vec::new();
    let mut i: usize = 0;
    assert(xs@.subrange(0, 0) =~= Seq::<JsonValue>::empty());
    while i < xs.len()
        invariant
            i <= xs.len(),
            jviews(out@) == jviews(xs@.subrange(0, i as int)),
            out@.len() == i,
        decreases xs.len() - i,
    {
        proof {
            assert(decreases_to!(xs@ => xs@[i as int]));
        }
        let c = clone_json(&xs[i]);
        let ghost before = out@;
        out.push(c);
        proof {
            let t = xs@.subrange(0, i + 1);
            assert(t.subrange(0, t.len() - 1) =~= xs@.subrange(0, i as int));
            assert(out@.subrange(0, out@.len() - 1) =~= before);
        }
        i = i + 1;
    }
    assert(xs@.subrange(0, xs@.len() as int) =~= xs@);
    out
}

fn clone_members(fs: &Vec<(String, JsonValue)>) -> (r: Vec<(String, JsonValue)>)
    ensures
        jmembers(r@) == jmembers(fs@),
    decreases fs@, 0nat,
{
    let mut out: Vec<(String, JsonValue)> = Vec::new();
    let mut i: usize = 0;
    assert(fs@.subrange(0, 0) =~= Seq::<(String, JsonValue)>::empty());
    while i < fs.len()
        invariant
            i <= fs.len(),
            jmembers(out@) == jmembers(fs@.subrange(0, i as int)),
            out@.len() == i,
        decreases fs.len() - i,
    {
        proof {
            assert(decreases_to!(fs@ => fs@[i as int]));
            assert(decreases_to!(fs@[i as int] => fs@[i as int].1));
        }
        let c = clone_json(&fs[i].1);
        let k = fs[i].0.clone();
        let ghost before = out@;
        out.push((k, c));
        proof {
            let t = fs@.subrange(0, i + 1);
            assert(t.subrange(0, t.len() - 1) =~= fs@.subrange(0, i as int));
            assert(out@.subrange(0, out@.len() - 1) =~= before);
        }
        i = i + 1;
    }
    assert(fs@.subrange(0, fs@.len() as int) =~= fs@);
    out
}

} // verus!
