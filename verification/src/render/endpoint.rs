//! Endpoint detail: parameters by location, request body, responses,
//! links, callbacks, and the schemas related to an endpoint.
use vstd::prelude::*;
use crate::strutil::{
    concat_map, decimal, is_blank, join, len_bytes, lemma_concat_map_take, lemma_join_push,
    lemma_max_of_take, max_of, pad_right, push_padded, push_str, push_usize, str_len, to_chars,
    push_char,
};
use crate::models::resource::{
    CallbackEntry, CallbackOperation, CallbackResponse, Endpoint, Parameter, ParameterLocation,
    RequestBody, Response, ResponseHeader, ResponseLink,
};
use crate::commands::resources::RelatedSchema;
use crate::render::fields::{enum_text, field_table, push_enum_text, render_fields_section};
use crate::render::sanitize::{
    join_san, only_if, opt_text, owned, push_join_san, push_san, push_san_opt, san, sanitize, str_eq,
};

verus! {

broadcast use vstd::seq_lib::group_seq_properties;

// ───────────────────────── lines of a text ─────────────────────────

/// Index of the first newline at or after `i`, or the end of `s`.
pub open spec fn line_end(s: Seq<char>, i: int) -> int
    decreases s.len() - i,
{
    if i >= s.len() {
        s.len() as int
    } else if s[i] == '\n' {
        i
    } else {
        line_end(s, i + 1)
    }
}

pub proof fn lemma_line_end_bounds(s: Seq<char>, i: int)
    requires
        0 <= i <= s.len(),
    ensures
        i <= line_end(s, i) <= s.len(),
        line_end(s, i) < s.len() ==> s[line_end(s, i)] == '\n',
        forall|k: int| i <= k < line_end(s, i) ==> s[k] != '\n',
    decreases s.len() - i,
{
    if i < s.len() && s[i] != '\n' {
        lemma_line_end_bounds(s, i + 1);
    }
}

/// The line that starts at `i`: up to the next newline, without a carriage
/// return just before that newline (what `str::lines` yields).
pub open spec fn line_at(s: Seq<char>, i: int) -> Seq<char> {
    let e = line_end(s, i);
    let raw = s.subrange(i, e);
    if e < s.len() && raw.len() > 0 && raw.last() == '\r' {
        raw.drop_last()
    } else {
        raw
    }
}

/// Each line of `s` from position `i` on, after `prefix` and ended by a
/// newline; a final newline of `s` starts no further line.
pub open spec fn indented_lines(s: Seq<char>, i: int, prefix: Seq<char>) -> Seq<char>
    decreases s.len() + 1 - i,
{
    if i < 0 || i >= s.len() {
        seq![]
    } else {
        proof {
            lemma_line_end_bounds(s, i);
        }
        prefix + line_at(s, i) + "\n"@ + indented_lines(s, line_end(s, i) + 1, prefix)
    }
}

/// Appends each line of `text` after `prefix`, ended by a newline.
pub fn push_indented_lines(out: &mut String, text: &str, prefix: &str)
    ensures
        final(out)@ == old(out)@ + indented_lines(text@, 0, prefix@),
{
    let s = to_chars(text);
    let ghost start = out@;
    let mut i: usize = 0;
    while i < s.len()
        invariant
            i <= s.len(),
            s@ == text@,
            start + indented_lines(s@, 0, prefix@) == out@ + indented_lines(s@, i as int, prefix@),
        decreases s.len() - i,
    {
        proof { lemma_line_end_bounds(s@, i as int); }
        let mut e: usize = i;
        while e < s.len() && s[e] != '\n'
            invariant
                i <= e <= s.len(),
                line_end(s@, i as int) == line_end(s@, e as int),
            decreases s.len() - e,
        {
            e = e + 1;
        }
        let mut end = e;
        if e < s.len() && e > i && s[e - 1] == '\r' {
            end = e - 1;
        }
        let mut line = owned(prefix);
        let mut k: usize = i;
        let ghost base = line@;
        while k < end
            invariant
                i <= k <= end <= e <= s.len(),
                line@ == base + s@.subrange(i as int, k as int),
            decreases end - k,
        {
            push_char(&mut line, s[k]);
            k = k + 1;
            assert(line@ =~= base + s@.subrange(i as int, k as int));
        }
        push_str(&mut line, "\n");
        proof {
            let raw = s@.subrange(i as int, e as int);
            assert(line_at(s@, i as int) =~= s@.subrange(i as int, end as int));
        }
        let ghost before = out@;
        push_str(out, line.as_str());
        proof {
            assert(indented_lines(s@, i as int, prefix@) == prefix@ + line_at(s@, i as int) + "\n"@
                + indented_lines(s@, e + 1, prefix@));
            assert(out@ + indented_lines(s@, e + 1, prefix@) =~= before + indented_lines(s@, i as int, prefix@));
        }
        if e == s.len() {
            i = e;
            assert(indented_lines(s@, e + 1, prefix@) =~= Seq::<char>::empty());
        } else {
            i = e + 1;
        }
    }
    assert(indented_lines(s@, i as int, prefix@) =~= Seq::<char>::empty());
}


// ───────────────────────── parameters ─────────────────────────

/// The parameters at one location, in order.
pub open spec fn params_at(ps: Seq<Parameter>, loc: ParameterLocation) -> Seq<Parameter>
    decreases ps.len(),
{
    if ps.len() == 0 {
        seq![]
    } else if ps.last().location == loc {
        params_at(ps.drop_last(), loc).push(ps.last())
    } else {
        params_at(ps.drop_last(), loc)
    }
}

pub open spec fn param_name_width(ps: Seq<Parameter>) -> nat {
    max_of(ps, |p: Parameter| len_bytes(p.name@))
}

/// One parameter line: name padded to `w`, type, required or optional,
/// description and enum values.
pub open spec fn param_line(p: Parameter, w: nat) -> Seq<char> {
    "  "@ + pad_right(san(p.name@), w) + "  "@ + san(p.schema_type@) + "  ("@
        + (if p.required { "required"@ } else { "optional"@ }) + ")  "@
        + san(opt_text(p.description)) + enum_text(p.enum_values@) + "\n"@
}

/// A titled section of parameters, or nothing for none.
pub open spec fn param_section(title: Seq<char>, ps: Seq<Parameter>) -> Seq<char> {
    only_if(ps.len() > 0, "\n"@ + title + ":\n"@
        + concat_map(ps, |p: Parameter| param_line(p, param_name_width(ps))))
}

fn param_width_at(params: &[Parameter], loc: ParameterLocation) -> (r: (usize, usize))
    ensures
        r.0 == param_name_width(params_at(params@, loc)),
        r.1 == params_at(params@, loc).len(),
{
    let mut w: usize = 0;
    let mut n: usize = 0;
    let mut i: usize = 0;
    while i < params.len()
        invariant
            i <= params.len(),
            n <= i,
            n == params_at(params@.take(i as int), loc).len(),
            w == param_name_width(params_at(params@.take(i as int), loc)),
        decreases params.len() - i,
    {
        proof { assert(params@.take(i + 1).drop_last() =~= params@.take(i as int)); }
        if params[i].location == loc {
            let ghost before = params_at(params@.take(i as int), loc);
            proof {
                let after = before.push(params@[i as int]);
                lemma_max_of_take(after, before.len() as int, |p: Parameter| len_bytes(p.name@));
                assert(after.take(before.len() as int) =~= before);
                assert(after.take(before.len() + 1int) =~= after);
            }
            let l = str_len(params[i].name.as_str());
            if l > w {
                w = l;
            }
            n = n + 1;
        }
        i = i + 1;
    }
    assert(params@.take(params@.len() as int) =~= params@);
    (w, n)
}

fn push_param_line(out: &mut String, p: &Parameter, w: usize)
    ensures
        final(out)@ == old(out)@ + param_line(*p, w as nat),
{
    let mut line = owned("  ");
    let name = sanitize(p.name.as_str());
    push_padded(&mut line, name.as_str(), w);
    push_str(&mut line, "  ");
    push_san(&mut line, p.schema_type.as_str());
    push_str(&mut line, "  (");
    if p.required {
        push_str(&mut line, "required");
    } else {
        push_str(&mut line, "optional");
    }
    push_str(&mut line, ")  ");
    push_san_opt(&mut line, &p.description);
    push_enum_text(&mut line, &p.enum_values);
    push_str(&mut line, "\n");
    push_str(out, line.as_str());
}

/// Appends the section of the parameters at `loc` under `title`.
pub fn render_param_section(out: &mut String, title: &str, params: &[Parameter], loc: ParameterLocation)
    ensures
        final(out)@ == old(out)@ + param_section(title@, params_at(params@, loc)),
{
    let (w, n) = param_width_at(params, loc);
    let ghost sel = params_at(params@, loc);
    if n == 0 {
        assert(out@ =~= old(out)@ + param_section(title@, sel));
        return;
    }
    push_str(out, "\n");
    push_str(out, title);
    push_str(out, ":\n");
    let ghost start = out@;
    let mut i: usize = 0;
    while i < params.len()
        invariant
            i <= params.len(),
            sel == params_at(params@, loc),
            w == param_name_width(sel),
            out@ == start + concat_map(params_at(params@.take(i as int), loc),
                |p: Parameter| param_line(p, param_name_width(sel))),
        decreases params.len() - i,
    {
        proof { assert(params@.take(i + 1).drop_last() =~= params@.take(i as int)); }
        if params[i].location == loc {
            proof {
                crate::strutil::lemma_concat_map_push(params_at(params@.take(i as int), loc), params@[i as int],
                    |p: Parameter| param_line(p, param_name_width(sel)));
            }
            push_param_line(out, &params[i], w);
        }
        i = i + 1;
    }
    assert(params@.take(params@.len() as int) =~= params@);
}

// ───────────────────────── related schemas ─────────────────────────

pub open spec fn related_block(s: RelatedSchema) -> Seq<char> {
    "  "@ + san(s.name@) + (match s.description {
        Some(d) => " ("@ + san(d@) + "):\n"@,
        None => ":\n"@,
    }) + field_table(s.fields@, "  "@) + "\n"@
}

pub open spec fn spec_render_related_schemas(ss: Seq<RelatedSchema>) -> Seq<char> {
    if ss.len() == 0 {
        "Related Schemas: none\n"@
    } else {
        "Related Schemas:\n\n"@ + concat_map(ss, |s: RelatedSchema| related_block(s))
    }
}

fn related_block_exec(sc: &RelatedSchema) -> (block: String)
    ensures
        block@ == related_block(*sc),
{
    let mut block = owned("  ");
    push_san(&mut block, sc.name.as_str());
    match &sc.description {
        Some(d) => {
            push_str(&mut block, " (");
            push_san(&mut block, d.as_str());
            push_str(&mut block, "):\n");
        },
        None => {
            push_str(&mut block, ":\n");
        },
    }
    render_fields_section(&mut block, sc.fields.as_slice());
    push_str(&mut block, "\n");
    block
}

/// Renders the schemas an endpoint refers to, each with its field table.
pub fn render_related_schemas(schemas: &[RelatedSchema], _is_tty: bool) -> (r: String)
    ensures
        r@ == spec_render_related_schemas(schemas@),
{
    if schemas.len() == 0 {
        return owned("Related Schemas: none\n");
    }
    let mut out = owned("Related Schemas:\n\n");
    let ghost start = out@;
    let mut i: usize = 0;
    while i < schemas.len()
        invariant
            i <= schemas.len(),
            out@ == start + concat_map(schemas@.take(i as int), |s: RelatedSchema| related_block(s)),
        decreases schemas.len() - i,
    {
        proof { lemma_concat_map_take(schemas@, i as int, |s: RelatedSchema| related_block(s)); }
        let block = related_block_exec(&schemas[i]);
        push_str(&mut out, block.as_str());
        i = i + 1;
    }
    assert(schemas@.take(schemas@.len() as int) =~= schemas@);
    out
}


// ───────────────────────── endpoint detail ─────────────────────────

/// `prefix`, the sanitized text and a newline.
pub open spec fn san_line(prefix: Seq<char>, t: Seq<char>) -> Seq<char> {
    prefix + san(t) + "\n"@
}

/// The line of an optional text, or nothing.
pub open spec fn opt_san_line(prefix: Seq<char>, o: Option<String>) -> Seq<char> {
    match o {
        Some(t) => san_line(prefix, t@),
        None => seq![],
    }
}

pub open spec fn detail_marker(e: Endpoint) -> Seq<char> {
    if e.is_deprecated {
        " [DEPRECATED]"@
    } else if e.is_alpha {
        " [ALPHA]"@
    } else {
        ""@
    }
}

/// Method, path and marker; the description unless blank; the schemes
/// that authenticate the endpoint.
pub open spec fn detail_header(e: Endpoint) -> Seq<char> {
    san(e.method@) + " "@ + san(e.path@) + detail_marker(e) + "\n"@
        + (match e.description {
            Some(d) => only_if(!is_blank(d@), san(d@) + "\n"@),
            None => seq![],
        })
        + only_if(e.security_schemes@.len() > 0,
            "\nAuthentication: "@ + join_san(e.security_schemes@, ", "@) + " (required)\n"@)
}

pub open spec fn detail_params(e: Endpoint) -> Seq<char> {
    param_section("Path Parameters"@, params_at(e.parameters@, ParameterLocation::Path))
        + param_section("Query Parameters"@, params_at(e.parameters@, ParameterLocation::Query))
        + param_section("Header Parameters"@, params_at(e.parameters@, ParameterLocation::Header))
}

/// The request body: its content type; its variants, or that it has no
/// schema, or its fields (after the item type of an array body); its example.
pub open spec fn body_block(b: RequestBody) -> Seq<char> {
    "\nRequest Body ("@ + san(b.content_type@) + "):\n"@
        + (if b.options@.len() > 0 {
            "  One of ("@ + decimal(b.options@.len()) + " options):\n"@
                + concat_map(b.options@, |o: String| san_line("    "@, o@))
        } else if b.fields@.len() == 0 {
            "  Raw body (no schema)\n"@
        } else {
            opt_san_item("  Array of "@, b.array_item_type) + field_table(b.fields@, "  "@)
        })
        + (match b.example {
            Some(x) => "\nRequest Example:\n"@ + indented_lines(x@, 0, "  "@),
            None => seq![],
        })
}

/// `prefix`, the sanitized text and `:` on a line, or nothing.
pub open spec fn opt_san_item(prefix: Seq<char>, o: Option<String>) -> Seq<char> {
    match o {
        Some(t) => prefix + san(t@) + ":\n"@,
        None => seq![],
    }
}

pub open spec fn is_success(r: Response) -> bool {
    r.status_code@.len() > 0 && r.status_code@[0] == '2'
}

pub open spec fn is_default(r: Response) -> bool {
    r.status_code@ == "default"@
}

/// The 2xx responses, in order.
pub open spec fn successes(rs: Seq<Response>) -> Seq<Response>
    decreases rs.len(),
{
    if rs.len() == 0 {
        seq![]
    } else if is_success(rs.last()) {
        successes(rs.drop_last()).push(rs.last())
    } else {
        successes(rs.drop_last())
    }
}

/// The responses that are neither 2xx nor `default`, in order.
pub open spec fn error_responses(rs: Seq<Response>) -> Seq<Response>
    decreases rs.len(),
{
    if rs.len() == 0 {
        seq![]
    } else if !is_success(rs.last()) && !is_default(rs.last()) {
        error_responses(rs.drop_last()).push(rs.last())
    } else {
        error_responses(rs.drop_last())
    }
}

/// The first `default` response.
pub open spec fn first_default(rs: Seq<Response>) -> Option<Response>
    decreases rs.len(),
{
    if rs.len() == 0 {
        None
    } else {
        match first_default(rs.drop_last()) {
            Some(r) => Some(r),
            None => if is_default(rs.last()) { Some(rs.last()) } else { None },
        }
    }
}

pub open spec fn arrow(is_tty: bool) -> Seq<char> {
    if is_tty { "→"@ } else { "->"@ }
}

pub open spec fn schema_suffix(r: Response, a: Seq<char>) -> Seq<char> {
    match r.schema_ref {
        Some(s) => " "@ + a + " "@ + san(s@),
        None => seq![],
    }
}

pub open spec fn header_line(h: ResponseHeader) -> Seq<char> {
    "      "@ + san(h.name@) + "  "@ + san(h.type_display@) + (match h.description {
        Some(d) => "  "@ + san(d@),
        None => seq![],
    }) + "\n"@
}

/// One success response: status, description and schema; its example,
/// headers and fields.
pub open spec fn success_block(r: Response, a: Seq<char>) -> Seq<char> {
    "  "@ + san(r.status_code@) + " "@ + san(r.description@) + schema_suffix(r, a) + "\n"@
        + (match r.example {
            Some(x) => "  Example:\n"@ + indented_lines(x@, 0, "    "@),
            None => seq![],
        })
        + only_if(r.headers@.len() > 0,
            "    Headers:\n"@ + concat_map(r.headers@, |h: ResponseHeader| header_line(h)))
        + only_if(r.fields@.len() > 0, "  Fields:\n"@ + field_table(r.fields@, "  "@))
}

pub open spec fn error_line(r: Response) -> Seq<char> {
    "  "@ + san(r.status_code@) + " "@ + san(r.description@) + "\n"@
}

/// Success responses first, then the default response, then the errors.
pub open spec fn responses_text(rs: Seq<Response>, is_tty: bool) -> Seq<char> {
    only_if(successes(rs).len() > 0,
        "\nResponses:\n"@ + concat_map(successes(rs), |r: Response| success_block(r, arrow(is_tty))))
        + (match first_default(rs) {
            Some(d) => "\nDefault Response:\n  "@ + san(d.description@) + schema_suffix(d, arrow(is_tty)) + "\n"@,
            None => seq![],
        })
        + only_if(error_responses(rs).len() > 0,
            "\nErrors:\n"@ + concat_map(error_responses(rs), |r: Response| error_line(r)))
}

pub open spec fn link_block(l: ResponseLink) -> Seq<char> {
    "  "@ + san(l.name@) + " -> "@ + san(l.operation_id@) + "\n"@
        + opt_san_line("    "@, l.description)
        + concat_map(l.parameters@, |p: String| san_line("    "@, p@))
        + opt_san_line("    "@, l.drill_command)
}

pub open spec fn callback_op_line(cb: CallbackEntry, op: CallbackOperation) -> Seq<char> {
    "  "@ + san(cb.name@) + " -> "@ + san(op.method@) + " "@ + san(op.url_expression@) + "\n"@
        + opt_san_line("    Body: "@, op.body_schema)
        + only_if(op.responses@.len() > 0, "    Responses: "@
            + join(op.responses@.map_values(|r: CallbackResponse| san(r.status_code@)), ", "@) + "\n"@)
}

pub open spec fn callback_lines(cb: CallbackEntry) -> Seq<char> {
    concat_map(cb.operations@, |op: CallbackOperation| callback_op_line(cb, op))
}

pub open spec fn spec_render_endpoint_detail(e: Endpoint, is_tty: bool) -> Seq<char> {
    detail_header(e) + detail_params(e)
        + (match e.request_body {
            Some(b) => body_block(b),
            None => seq![],
        })
        + responses_text(e.responses@, is_tty)
        + only_if(e.links@.len() > 0, "\nLinks:\n"@ + concat_map(e.links@, |l: ResponseLink| link_block(l)))
        + only_if(e.callbacks@.len() > 0,
            "\nCallbacks:\n"@ + concat_map(e.callbacks@, |cb: CallbackEntry| callback_lines(cb)))
        + only_if(is_tty && e.drill_deeper@.len() > 0,
            "\nDrill deeper:\n"@ + concat_map(e.drill_deeper@, |c: String| san_line("  "@, c@)))
}

/// Appends a sanitized line of each string of `v`.
fn push_san_lines(out: &mut String, v: &Vec<String>, prefix: &str)
    ensures
        final(out)@ == old(out)@ + concat_map(v@, |t: String| san_line(prefix@, t@)),
{
    let ghost start = out@;
    let mut i: usize = 0;
    while i < v.len()
        invariant
            i <= v.len(),
            out@ == start + concat_map(v@.take(i as int), |t: String| san_line(prefix@, t@)),
        decreases v.len() - i,
    {
        proof { lemma_concat_map_take(v@, i as int, |t: String| san_line(prefix@, t@)); }
        let mut line = owned(prefix);
        push_san(&mut line, v[i].as_str());
        push_str(&mut line, "\n");
        push_str(out, line.as_str());
        i = i + 1;
    }
    assert(v@.take(v@.len() as int) =~= v@);
}

fn push_opt_san_line(out: &mut String, prefix: &str, o: &Option<String>)
    ensures
        final(out)@ == old(out)@ + opt_san_line(prefix@, *o),
{
    match o {
        Some(t) => {
            let mut line = owned(prefix);
            push_san(&mut line, t.as_str());
            push_str(&mut line, "\n");
            push_str(out, line.as_str());
        },
        None => {
            assert(out@ =~= old(out)@ + opt_san_line(prefix@, *o));
        },
    }
}

fn header_exec(e: &Endpoint) -> (out: String)
    ensures
        out@ == detail_header(*e),
{
    let mut out = String::new();
    push_san(&mut out, e.method.as_str());
    push_str(&mut out, " ");
    push_san(&mut out, e.path.as_str());
    if e.is_deprecated {
        push_str(&mut out, " [DEPRECATED]");
    } else if e.is_alpha {
        push_str(&mut out, " [ALPHA]");
    } else {
        push_str(&mut out, "");
    }
    push_str(&mut out, "\n");
    let ghost mid = out@;
    match &e.description {
        Some(d) => {
            if !crate::strutil::blank(d.as_str()) {
                push_san(&mut out, d.as_str());
                push_str(&mut out, "\n");
            }
        },
        None => {},
    }
    assert(out@ =~= mid + (match e.description {
        Some(d) => only_if(!is_blank(d@), san(d@) + "\n"@),
        None => seq![],
    }));
    let ghost mid2 = out@;
    if e.security_schemes.len() > 0 {
        push_str(&mut out, "\nAuthentication: ");
        push_join_san(&mut out, e.security_schemes.as_slice(), ", ");
        push_str(&mut out, " (required)\n");
    }
    assert(out@ =~= mid2 + only_if(e.security_schemes@.len() > 0,
        "\nAuthentication: "@ + join_san(e.security_schemes@, ", "@) + " (required)\n"@));
    out
}

fn body_exec(b: &RequestBody) -> (out: String)
    ensures
        out@ == body_block(*b),
{
    let mut out = owned("\nRequest Body (");
    push_san(&mut out, b.content_type.as_str());
    push_str(&mut out, "):\n");
    let mut mid = String::new();
    if b.options.len() > 0 {
        mid = owned("  One of (");
        push_usize(&mut mid, b.options.len());
        push_str(&mut mid, " options):\n");
        push_san_lines(&mut mid, &b.options, "    ");
    } else if b.fields.len() == 0 {
        mid = owned("  Raw body (no schema)\n");
    } else {
        match &b.array_item_type {
            Some(t) => {
                mid = owned("  Array of ");
                push_san(&mut mid, t.as_str());
                push_str(&mut mid, ":\n");
            },
            None => {},
        }
        assert(mid@ =~= opt_san_item("  Array of "@, b.array_item_type));
        render_fields_section(&mut mid, b.fields.as_slice());
    }
    push_str(&mut out, mid.as_str());
    let ghost m2 = out@;
    match &b.example {
        Some(x) => {
            push_str(&mut out, "\nRequest Example:\n");
            push_indented_lines(&mut out, x.as_str(), "  ");
        },
        None => {},
    }
    assert(out@ =~= m2 + (match b.example {
        Some(x) => "\nRequest Example:\n"@ + indented_lines(x@, 0, "  "@),
        None => seq![],
    }));
    out
}


fn push_schema_suffix(out: &mut String, r: &Response, a: &str)
    ensures
        final(out)@ == old(out)@ + schema_suffix(*r, a@),
{
    match &r.schema_ref {
        Some(sr) => {
            push_str(out, " ");
            push_str(out, a);
            push_str(out, " ");
            push_san(out, sr.as_str());
        },
        None => {
            assert(out@ =~= old(out)@ + schema_suffix(*r, a@));
        },
    }
}

fn success_exec(r: &Response, a: &str) -> (out: String)
    ensures
        out@ == success_block(*r, a@),
{
    let mut out = owned("  ");
    push_san(&mut out, r.status_code.as_str());
    push_str(&mut out, " ");
    push_san(&mut out, r.description.as_str());
    push_schema_suffix(&mut out, r, a);
    push_str(&mut out, "\n");
    let ghost m1 = out@;
    match &r.example {
        Some(x) => {
            push_str(&mut out, "  Example:\n");
            push_indented_lines(&mut out, x.as_str(), "    ");
        },
        None => {},
    }
    assert(out@ =~= m1 + (match r.example {
        Some(x) => "  Example:\n"@ + indented_lines(x@, 0, "    "@),
        None => seq![],
    }));
    let ghost m2 = out@;
    if r.headers.len() > 0 {
        push_str(&mut out, "    Headers:\n");
        let ghost m3 = out@;
        let mut i: usize = 0;
        while i < r.headers.len()
            invariant
                i <= r.headers.len(),
                out@ == m3 + concat_map(r.headers@.take(i as int), |h: ResponseHeader| header_line(h)),
            decreases r.headers.len() - i,
        {
            proof { lemma_concat_map_take(r.headers@, i as int, |h: ResponseHeader| header_line(h)); }
            let h = &r.headers[i];
            let mut line = owned("      ");
            push_san(&mut line, h.name.as_str());
            push_str(&mut line, "  ");
            push_san(&mut line, h.type_display.as_str());
            match &h.description {
                Some(d) => {
                    push_str(&mut line, "  ");
                    push_san(&mut line, d.as_str());
                },
                None => {},
            }
            push_str(&mut line, "\n");
            assert(line@ =~= header_line(*h));
            push_str(&mut out, line.as_str());
            i = i + 1;
        }
        assert(r.headers@.take(r.headers@.len() as int) =~= r.headers@);
    }
    assert(out@ =~= m2 + only_if(r.headers@.len() > 0,
        "    Headers:\n"@ + concat_map(r.headers@, |h: ResponseHeader| header_line(h))));
    let ghost m4 = out@;
    if r.fields.len() > 0 {
        push_str(&mut out, "  Fields:\n");
        render_fields_section(&mut out, r.fields.as_slice());
    }
    assert(out@ =~= m4 + only_if(r.fields@.len() > 0, "  Fields:\n"@ + field_table(r.fields@, "  "@)));
    out
}

fn str_is_success(r: &Response) -> (b: bool)
    ensures
        b == is_success(*r),
{
    let v = to_chars(r.status_code.as_str());
    v.len() > 0 && v[0] == '2'
}

fn success_lines(rs: &Vec<Response>, a: &str) -> (r: (String, usize))
    ensures
        r.0@ == concat_map(successes(rs@), |x: Response| success_block(x, a@)),
        r.1 == successes(rs@).len(),
{
    let mut succ = String::new();
    let mut n: usize = 0;
    let mut i: usize = 0;
    while i < rs.len()
        invariant
            i <= rs.len(),
            n <= i,
            n == successes(rs@.take(i as int)).len(),
            succ@ == concat_map(successes(rs@.take(i as int)), |x: Response| success_block(x, a@)),
        decreases rs.len() - i,
    {
        proof { assert(rs@.take(i + 1).drop_last() =~= rs@.take(i as int)); }
        if str_is_success(&rs[i]) {
            proof {
                crate::strutil::lemma_concat_map_push(successes(rs@.take(i as int)), rs@[i as int],
                    |x: Response| success_block(x, a@));
            }
            let b = success_exec(&rs[i], a);
            push_str(&mut succ, b.as_str());
            n = n + 1;
        }
        i = i + 1;
    }
    assert(rs@.take(rs@.len() as int) =~= rs@);
    (succ, n)
}

fn error_lines(rs: &Vec<Response>) -> (r: (String, usize))
    ensures
        r.0@ == concat_map(error_responses(rs@), |x: Response| error_line(x)),
        r.1 == error_responses(rs@).len(),
{
    let mut errs = String::new();
    let mut n: usize = 0;
    let mut i: usize = 0;
    while i < rs.len()
        invariant
            i <= rs.len(),
            n <= i,
            n == error_responses(rs@.take(i as int)).len(),
            errs@ == concat_map(error_responses(rs@.take(i as int)), |x: Response| error_line(x)),
        decreases rs.len() - i,
    {
        proof { assert(rs@.take(i + 1).drop_last() =~= rs@.take(i as int)); }
        let r = &rs[i];
        if !str_is_success(r) && !str_eq(r.status_code.as_str(), "default") {
            proof {
                crate::strutil::lemma_concat_map_push(error_responses(rs@.take(i as int)), rs@[i as int],
                    |x: Response| error_line(x));
            }
            let mut line = owned("  ");
            push_san(&mut line, r.status_code.as_str());
            push_str(&mut line, " ");
            push_san(&mut line, r.description.as_str());
            push_str(&mut line, "\n");
            push_str(&mut errs, line.as_str());
            n = n + 1;
        }
        i = i + 1;
    }
    assert(rs@.take(rs@.len() as int) =~= rs@);
    (errs, n)
}

fn find_default(rs: &Vec<Response>) -> (r: Option<usize>)
    ensures
        match r {
            Some(k) => k < rs@.len() && first_default(rs@) == Some(rs@[k as int]),
            None => first_default(rs@) is None,
        },
{
    let mut i: usize = 0;
    while i < rs.len()
        invariant
            i <= rs.len(),
            first_default(rs@.take(i as int)) is None,
        decreases rs.len() - i,
    {
        proof { assert(rs@.take(i + 1).drop_last() =~= rs@.take(i as int)); }
        if str_eq(rs[i].status_code.as_str(), "default") {
            proof { lemma_first_default_prefix(rs@, i as int + 1); }
            return Some(i);
        }
        i = i + 1;
    }
    assert(rs@.take(rs@.len() as int) =~= rs@);
    None
}

/// Once a prefix has a `default` response, the first one stays the first.
proof fn lemma_first_default_prefix(rs: Seq<Response>, k: int)
    requires
        0 <= k <= rs.len(),
        first_default(rs.take(k)) is Some,
    ensures
        first_default(rs) == first_default(rs.take(k)),
    decreases rs.len() - k,
{
    if k < rs.len() {
        assert(rs.take(k + 1).drop_last() =~= rs.take(k));
        lemma_first_default_prefix(rs, k + 1);
    } else {
        assert(rs.take(k) =~= rs);
    }
}

fn responses_exec(rs: &Vec<Response>, is_tty: bool) -> (out: String)
    ensures
        out@ == responses_text(rs@, is_tty),
{
    let a = if is_tty { owned("→") } else { owned("->") };
    assert(a@ == arrow(is_tty));
    let (succ, nsucc) = success_lines(rs, a.as_str());
    let (errs, nerr) = error_lines(rs);
    let dflt = find_default(rs);
    let mut out = String::new();
    if nsucc > 0 {
        push_str(&mut out, "\nResponses:\n");
        push_str(&mut out, succ.as_str());
    }
    assert(out@ =~= only_if(successes(rs@).len() > 0,
        "\nResponses:\n"@ + concat_map(successes(rs@), |r: Response| success_block(r, arrow(is_tty)))));
    let ghost m1 = out@;
    match dflt {
        Some(k) => {
            let d = &rs[k];
            push_str(&mut out, "\nDefault Response:\n  ");
            push_san(&mut out, d.description.as_str());
            push_schema_suffix(&mut out, d, a.as_str());
            push_str(&mut out, "\n");
        },
        None => {},
    }
    assert(out@ =~= m1 + (match first_default(rs@) {
        Some(d) => "\nDefault Response:\n  "@ + san(d.description@) + schema_suffix(d, arrow(is_tty)) + "\n"@,
        None => seq![],
    }));
    let ghost m2 = out@;
    if nerr > 0 {
        push_str(&mut out, "\nErrors:\n");
        push_str(&mut out, errs.as_str());
    }
    assert(out@ =~= m2 + only_if(error_responses(rs@).len() > 0,
        "\nErrors:\n"@ + concat_map(error_responses(rs@), |r: Response| error_line(r))));
    out
}

fn links_exec(links: &Vec<ResponseLink>) -> (out: String)
    ensures
        out@ == only_if(links@.len() > 0, "\nLinks:\n"@ + concat_map(links@, |l: ResponseLink| link_block(l))),
{
    if links.len() == 0 {
        let out = String::new();
        assert(out@ =~= only_if(links@.len() > 0, "\nLinks:\n"@ + concat_map(links@, |l: ResponseLink| link_block(l))));
        return out;
    }
    let mut out = owned("\nLinks:\n");
    let ghost start = out@;
    let mut i: usize = 0;
    while i < links.len()
        invariant
            i <= links.len(),
            out@ == start + concat_map(links@.take(i as int), |l: ResponseLink| link_block(l)),
        decreases links.len() - i,
    {
        proof { lemma_concat_map_take(links@, i as int, |l: ResponseLink| link_block(l)); }
        let l = &links[i];
        let mut b = owned("  ");
        push_san(&mut b, l.name.as_str());
        push_str(&mut b, " -> ");
        push_san(&mut b, l.operation_id.as_str());
        push_str(&mut b, "\n");
        push_opt_san_line(&mut b, "    ", &l.description);
        push_san_lines(&mut b, &l.parameters, "    ");
        push_opt_san_line(&mut b, "    ", &l.drill_command);
        push_str(&mut out, b.as_str());
        i = i + 1;
    }
    assert(links@.take(links@.len() as int) =~= links@);
    out
}

fn callback_op_exec(cb: &CallbackEntry, op: &CallbackOperation) -> (out: String)
    ensures
        out@ == callback_op_line(*cb, *op),
{
    let mut out = owned("  ");
    push_san(&mut out, cb.name.as_str());
    push_str(&mut out, " -> ");
    push_san(&mut out, op.method.as_str());
    push_str(&mut out, " ");
    push_san(&mut out, op.url_expression.as_str());
    push_str(&mut out, "\n");
    push_opt_san_line(&mut out, "    Body: ", &op.body_schema);
    let ghost m = out@;
    if op.responses.len() > 0 {
        push_str(&mut out, "    Responses: ");
        let ghost views = op.responses@.map_values(|r: CallbackResponse| san(r.status_code@));
        let ghost st = out@;
        let mut i: usize = 0;
        while i < op.responses.len()
            invariant
                i <= op.responses.len(),
                views == op.responses@.map_values(|r: CallbackResponse| san(r.status_code@)),
                out@ == st + join(views.take(i as int), ", "@),
            decreases op.responses.len() - i,
        {
            proof {
                assert(views.take(i + 1) =~= views.take(i as int).push(views[i as int]));
                lemma_join_push(views.take(i as int), views[i as int], ", "@);
            }
            if i > 0 {
                push_str(&mut out, ", ");
            }
            push_san(&mut out, op.responses[i].status_code.as_str());
            i = i + 1;
        }
        assert(views.take(views.len() as int) =~= views);
        push_str(&mut out, "\n");
    }
    assert(out@ =~= m + only_if(op.responses@.len() > 0, "    Responses: "@
        + join(op.responses@.map_values(|r: CallbackResponse| san(r.status_code@)), ", "@) + "\n"@));
    out
}

fn callback_lines_exec(cb: &CallbackEntry) -> (out: String)
    ensures
        out@ == callback_lines(*cb),
{
    let mut out = String::new();
    let mut i: usize = 0;
    while i < cb.operations.len()
        invariant
            i <= cb.operations.len(),
            out@ == concat_map(cb.operations@.take(i as int), |op: CallbackOperation| callback_op_line(*cb, op)),
        decreases cb.operations.len() - i,
    {
        proof { lemma_concat_map_take(cb.operations@, i as int, |op: CallbackOperation| callback_op_line(*cb, op)); }
        let l = callback_op_exec(cb, &cb.operations[i]);
        push_str(&mut out, l.as_str());
        i = i + 1;
    }
    assert(cb.operations@.take(cb.operations@.len() as int) =~= cb.operations@);
    out
}

fn callbacks_exec(cbs: &Vec<CallbackEntry>) -> (out: String)
    ensures
        out@ == only_if(cbs@.len() > 0,
            "\nCallbacks:\n"@ + concat_map(cbs@, |cb: CallbackEntry| callback_lines(cb))),
{
    let mut body = String::new();
    let mut i: usize = 0;
    while i < cbs.len()
        invariant
            i <= cbs.len(),
            body@ == concat_map(cbs@.take(i as int), |cb: CallbackEntry| callback_lines(cb)),
        decreases cbs.len() - i,
    {
        proof { lemma_concat_map_take(cbs@, i as int, |cb: CallbackEntry| callback_lines(cb)); }
        let l = callback_lines_exec(&cbs[i]);
        push_str(&mut body, l.as_str());
        i = i + 1;
    }
    assert(cbs@.take(cbs@.len() as int) =~= cbs@);
    let mut out = String::new();
    if cbs.len() > 0 {
        out = owned("\nCallbacks:\n");
        push_str(&mut out, body.as_str());
    }
    assert(out@ =~= only_if(cbs@.len() > 0,
        "\nCallbacks:\n"@ + concat_map(cbs@, |cb: CallbackEntry| callback_lines(cb))));
    out
}

/// Renders everything about one endpoint: header, authentication,
/// parameters by location, request body, responses (success, default,
/// errors), links, callbacks, and, on a terminal, what to look at next.
#[verifier::spinoff_prover]
#[verifier::rlimit(40)]
pub fn render_endpoint_detail(endpoint: &Endpoint, is_tty: bool) -> (r: String)
    ensures
        r@ == spec_render_endpoint_detail(*endpoint, is_tty),
{
    let mut out = header_exec(endpoint);
    let ghost h = out@;
    render_param_section(&mut out, "Path Parameters", endpoint.parameters.as_slice(), ParameterLocation::Path);
    render_param_section(&mut out, "Query Parameters", endpoint.parameters.as_slice(), ParameterLocation::Query);
    render_param_section(&mut out, "Header Parameters", endpoint.parameters.as_slice(), ParameterLocation::Header);
    assert(out@ =~= h + detail_params(*endpoint));
    let ghost m1 = out@;
    match &endpoint.request_body {
        Some(b) => {
            let t = body_exec(b);
            push_str(&mut out, t.as_str());
        },
        None => {},
    }
    assert(out@ =~= m1 + (match endpoint.request_body {
        Some(b) => body_block(b),
        None => seq![],
    }));
    let rt = responses_exec(&endpoint.responses, is_tty);
    push_str(&mut out, rt.as_str());
    let lt = links_exec(&endpoint.links);
    push_str(&mut out, lt.as_str());
    let ct = callbacks_exec(&endpoint.callbacks);
    push_str(&mut out, ct.as_str());
    let ghost m2 = out@;
    if is_tty && endpoint.drill_deeper.len() > 0 {
        push_str(&mut out, "\nDrill deeper:\n");
        push_san_lines(&mut out, &endpoint.drill_deeper, "  ");
    }
    assert(out@ =~= m2 + only_if(is_tty && endpoint.drill_deeper@.len() > 0,
        "\nDrill deeper:\n"@ + concat_map(endpoint.drill_deeper@, |c: String| san_line("  "@, c@))));
    out
}

} // verus!
