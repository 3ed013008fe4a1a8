//! Search results: a summary of what matched, then each kind of match,
//! cut at a limit where one is given.
use vstd::prelude::*;
use crate::strutil::{
    concat_map, decimal, join, len_bytes, lemma_concat_map_take, lemma_join_push, lemma_max_of_take,
    max_of, pad_right, push_padded, push_str, push_usize, str_len, usize_to_string,
};
use crate::commands::search::{
    CallbackMatch, EndpointMatch, ResourceMatch, SchemaMatch, SearchResults, SecuritySchemeMatch,
};
use crate::render::sanitize::{only_if, opt_text, owned, push_san, push_san_opt, san, sanitize};

verus! {

/// The first `limit` items where there are more, else all of them.
pub open spec fn shown<A>(s: Seq<A>, limit: Option<usize>) -> Seq<A> {
    match limit {
        Some(n) => if n < s.len() { s.take(n as int) } else { s },
        None => s,
    }
}

/// The first five items, or all where there are fewer.
pub open spec fn first_five<A>(s: Seq<A>) -> Seq<A> {
    if s.len() > 5 { s.take(5) } else { s }
}

/// `Title:` or, when the list is cut, `Title (showing n of total):`.
pub open spec fn section_heading(title: Seq<char>, total: nat, limit: Option<usize>) -> Seq<char> {
    match limit {
        Some(n) => if n < total {
            "\n"@ + title + " (showing "@ + decimal(n as nat) + " of "@ + decimal(total) + "):\n"@
        } else {
            "\n"@ + title + ":\n"@
        },
        None => "\n"@ + title + ":\n"@,
    }
}

pub open spec fn has_any(r: SearchResults) -> bool {
    r.resources@.len() > 0 || r.endpoints@.len() > 0 || r.schemas@.len() > 0
        || r.callbacks@.len() > 0 || r.security_schemes@.len() > 0
}

pub open spec fn suggestion_line(s: String) -> Seq<char> {
    "  phyll search "@ + san(s@) + "\n"@
}

pub open spec fn no_results_text(r: SearchResults) -> Seq<char> {
    "No results found for \""@ + r.term@ + "\".\n"@ + only_if(r.suggestions@.len() > 0,
        "Did you mean:\n"@ + concat_map(r.suggestions@, |s: String| suggestion_line(s)))
}

pub open spec fn count_item(n: nat, what: Seq<char>) -> Seq<Seq<char>> {
    if n > 0 { seq![decimal(n) + what] } else { seq![] }
}

/// `n kind(s)` for each kind of match there is.
pub open spec fn counts(r: SearchResults) -> Seq<Seq<char>> {
    count_item(r.resources@.len(), " resource(s)"@) + count_item(r.endpoints@.len(), " endpoint(s)"@)
        + count_item(r.schemas@.len(), " schema(s)"@) + count_item(r.callbacks@.len(), " callback(s)"@)
        + count_item(r.security_schemes@.len(), " security scheme(s)"@)
}

pub open spec fn resource_line(m: ResourceMatch, w: nat) -> Seq<char> {
    "  "@ + pad_right(san(m.slug@), w) + "  "@ + san(opt_text(m.description)) + "\n"@
}

pub open spec fn resources_text(ms: Seq<ResourceMatch>, limit: Option<usize>) -> Seq<char> {
    let d = shown(ms, limit);
    only_if(ms.len() > 0, section_heading("Resources"@, ms.len(), limit) + concat_map(d,
        |m: ResourceMatch| resource_line(m, max_of(d, |x: ResourceMatch| len_bytes(x.slug@)))))
}

pub open spec fn endpoint_match_line(m: EndpointMatch, w: nat) -> Seq<char> {
    "  "@ + pad_right(san(m.method@), 7) + " "@ + pad_right(san(m.path@), w) + "  "@
        + san(opt_text(m.summary)) + (match m.matched_on {
            Some(x) => "  ("@ + san(x@) + ")"@,
            None => seq![],
        }) + "\n"@ + only_if(m.resource_slug@.len() > 0,
            "    phyll --endpoint "@ + san(m.method@) + " "@ + san(m.path@) + "\n"@)
}

pub open spec fn endpoints_text(ms: Seq<EndpointMatch>, limit: Option<usize>) -> Seq<char> {
    let d = shown(ms, limit);
    only_if(ms.len() > 0, section_heading("Endpoints"@, ms.len(), limit) + concat_map(d,
        |m: EndpointMatch| endpoint_match_line(m, max_of(d, |x: EndpointMatch| len_bytes(x.path@)))))
}

pub open spec fn schema_match_line(m: SchemaMatch) -> Seq<char> {
    match m.matched_field {
        Some(f) => "  "@ + san(m.name@) + " (field: "@ + san(f@) + ")\n"@,
        None => match m.matched_on {
            Some(r) => "  "@ + san(m.name@) + " ("@ + san(r@) + ")\n"@,
            None => "  "@ + san(m.name@) + "\n"@,
        },
    }
}

pub open spec fn schemas_text(ms: Seq<SchemaMatch>, limit: Option<usize>) -> Seq<char> {
    only_if(ms.len() > 0, section_heading("Schemas"@, ms.len(), limit)
        + concat_map(shown(ms, limit), |m: SchemaMatch| schema_match_line(m)))
}

pub open spec fn callback_match_line(m: CallbackMatch, is_tty: bool) -> Seq<char> {
    "  "@ + san(m.name@) + "  (on "@ + san(m.defined_on_path@) + ")\n"@
        + only_if(is_tty, "    phyll --callbacks "@ + san(m.name@) + "\n"@)
}

pub open spec fn callbacks_text(ms: Seq<CallbackMatch>, limit: Option<usize>, is_tty: bool) -> Seq<char> {
    only_if(ms.len() > 0, section_heading("Callbacks"@, ms.len(), limit)
        + concat_map(shown(ms, limit), |m: CallbackMatch| callback_match_line(m, is_tty)))
}

pub open spec fn scheme_match_line(m: SecuritySchemeMatch, is_tty: bool) -> Seq<char> {
    "  "@ + san(m.name@) + " ("@ + san(m.scheme_type@) + ")"@ + (match m.description {
        Some(d) => "  "@ + san(d@),
        None => seq![],
    }) + "\n"@ + only_if(is_tty, "    phyll --auth\n"@)
}

pub open spec fn schemes_text(ms: Seq<SecuritySchemeMatch>, is_tty: bool) -> Seq<char> {
    only_if(ms.len() > 0, "\nSecurity Schemes:\n"@
        + concat_map(ms, |m: SecuritySchemeMatch| scheme_match_line(m, is_tty)))
}

pub open spec fn resource_drill(m: ResourceMatch) -> Seq<char> {
    "  phyll --resources "@ + san(m.slug@) + "\n"@
}

pub open spec fn schema_drill(m: SchemaMatch) -> Seq<char> {
    "  phyll --schemas "@ + san(m.name@) + "\n"@
}

/// On a terminal, the first five resources and schemas to look at next.
pub open spec fn search_drill(r: SearchResults, is_tty: bool) -> Seq<char> {
    only_if(is_tty && (r.resources@.len() > 0 || r.schemas@.len() > 0), "\nDrill deeper:\n"@
        + concat_map(first_five(r.resources@), |m: ResourceMatch| resource_drill(m))
        + concat_map(first_five(r.schemas@), |m: SchemaMatch| schema_drill(m)))
}

pub open spec fn spec_render_search(r: SearchResults, limit: Option<usize>, is_tty: bool) -> Seq<char> {
    if !has_any(r) {
        no_results_text(r)
    } else {
        "Results for \""@ + r.term@ + "\":\n"@ + "Found "@ + join(counts(r), ", "@) + "\n"@
            + search_sections(r, limit, is_tty)
    }
}

/// The matches of each kind, then what to look at next.
pub open spec fn search_sections(r: SearchResults, limit: Option<usize>, is_tty: bool) -> Seq<char> {
    resources_text(r.resources@, limit) + endpoints_text(r.endpoints@, limit)
        + schemas_text(r.schemas@, limit) + callbacks_text(r.callbacks@, limit, is_tty)
        + schemes_text(r.security_schemes@, is_tty) + search_drill(r, is_tty)
}


/// A limited list shows exactly as many items as the limit allows, and an
/// unlimited one all of them, in order.
pub proof fn lemma_shown_respects_limit<A>(s: Seq<A>, limit: Option<usize>)
    ensures
        match limit {
            Some(n) => shown(s, limit).len() == (if n < s.len() { n as nat } else { s.len() }),
            None => shown(s, limit) == s,
        },
        forall|i: int| 0 <= i < shown(s, limit).len() ==> #[trigger] shown(s, limit)[i] == s[i],
{
}

fn shown_count(total: usize, limit: Option<usize>) -> (n: usize)
    ensures
        n <= total,
        n == (match limit {
            Some(l) => if l < total { l } else { total },
            None => total,
        }),
{
    match limit {
        Some(l) => if l < total { l } else { total },
        None => total,
    }
}

fn push_heading(out: &mut String, title: &str, total: usize, limit: Option<usize>)
    ensures
        final(out)@ == old(out)@ + section_heading(title@, total as nat, limit),
{
    push_str(out, "\n");
    push_str(out, title);
    match limit {
        Some(n) => {
            if n < total {
                push_str(out, " (showing ");
                push_usize(out, n);
                push_str(out, " of ");
                push_usize(out, total);
                push_str(out, "):\n");
            } else {
                push_str(out, ":\n");
            }
        },
        None => {
            push_str(out, ":\n");
        },
    }
}

fn resources_exec(ms: &Vec<ResourceMatch>, limit: Option<usize>) -> (out: String)
    ensures
        out@ == resources_text(ms@, limit),
{
    let mut out = String::new();
    if ms.len() == 0 {
        assert(out@ =~= resources_text(ms@, limit));
        return out;
    }
    push_heading(&mut out, "Resources", ms.len(), limit);
    let k = shown_count(ms.len(), limit);
    let ghost d = shown(ms@, limit);
    assert(d =~= ms@.take(k as int));
    let mut w: usize = 0;
    let mut i: usize = 0;
    while i < k
        invariant
            i <= k <= ms@.len(),
            d == ms@.take(k as int),
            w == max_of(d.take(i as int), |x: ResourceMatch| len_bytes(x.slug@)),
        decreases k - i,
    {
        proof { lemma_max_of_take(d, i as int, |x: ResourceMatch| len_bytes(x.slug@)); }
        let l = str_len(ms[i].slug.as_str());
        if l > w {
            w = l;
        }
        i = i + 1;
    }
    assert(d.take(k as int) =~= d);
    let ghost start = out@;
    let ghost wn = max_of(d, |x: ResourceMatch| len_bytes(x.slug@));
    let mut i: usize = 0;
    while i < k
        invariant
            i <= k <= ms@.len(),
            d == ms@.take(k as int),
            w == wn,
            out@ == start + concat_map(d.take(i as int), |m: ResourceMatch| resource_line(m, wn)),
        decreases k - i,
    {
        proof { lemma_concat_map_take(d, i as int, |m: ResourceMatch| resource_line(m, wn)); }
        let m = &ms[i];
        let mut line = owned("  ");
        let sl = sanitize(m.slug.as_str());
        push_padded(&mut line, sl.as_str(), w);
        push_str(&mut line, "  ");
        push_san_opt(&mut line, &m.description);
        push_str(&mut line, "\n");
        push_str(&mut out, line.as_str());
        i = i + 1;
    }
    assert(d.take(k as int) =~= d);
    out
}

fn endpoint_line_exec(m: &EndpointMatch, w: usize) -> (line: String)
    ensures
        line@ == endpoint_match_line(*m, w as nat),
{
    let mut line = owned("  ");
    let me = sanitize(m.method.as_str());
    push_padded(&mut line, me.as_str(), 7);
    push_str(&mut line, " ");
    let pa = sanitize(m.path.as_str());
    push_padded(&mut line, pa.as_str(), w);
    push_str(&mut line, "  ");
    push_san_opt(&mut line, &m.summary);
    let ghost m1 = line@;
    match &m.matched_on {
        Some(x) => {
            push_str(&mut line, "  (");
            push_san(&mut line, x.as_str());
            push_str(&mut line, ")");
        },
        None => {},
    }
    assert(line@ =~= m1 + (match m.matched_on {
        Some(x) => "  ("@ + san(x@) + ")"@,
        None => seq![],
    }));
    push_str(&mut line, "\n");
    let ghost m2 = line@;
    if crate::strutil::char_count(m.resource_slug.as_str()) > 0 {
        push_str(&mut line, "    phyll --endpoint ");
        push_str(&mut line, me.as_str());
        push_str(&mut line, " ");
        push_str(&mut line, pa.as_str());
        push_str(&mut line, "\n");
    }
    assert(line@ =~= m2 + only_if(m.resource_slug@.len() > 0,
        "    phyll --endpoint "@ + san(m.method@) + " "@ + san(m.path@) + "\n"@));
    line
}

fn endpoints_exec(ms: &Vec<EndpointMatch>, limit: Option<usize>) -> (out: String)
    ensures
        out@ == endpoints_text(ms@, limit),
{
    let mut out = String::new();
    if ms.len() == 0 {
        assert(out@ =~= endpoints_text(ms@, limit));
        return out;
    }
    push_heading(&mut out, "Endpoints", ms.len(), limit);
    let k = shown_count(ms.len(), limit);
    let ghost d = shown(ms@, limit);
    assert(d =~= ms@.take(k as int));
    let mut w: usize = 0;
    let mut i: usize = 0;
    while i < k
        invariant
            i <= k <= ms@.len(),
            d == ms@.take(k as int),
            w == max_of(d.take(i as int), |x: EndpointMatch| len_bytes(x.path@)),
        decreases k - i,
    {
        proof { lemma_max_of_take(d, i as int, |x: EndpointMatch| len_bytes(x.path@)); }
        let l = str_len(ms[i].path.as_str());
        if l > w {
            w = l;
        }
        i = i + 1;
    }
    assert(d.take(k as int) =~= d);
    let ghost start = out@;
    let ghost wn = max_of(d, |x: EndpointMatch| len_bytes(x.path@));
    let mut i: usize = 0;
    while i < k
        invariant
            i <= k <= ms@.len(),
            d == ms@.take(k as int),
            w == wn,
            out@ == start + concat_map(d.take(i as int), |m: EndpointMatch| endpoint_match_line(m, wn)),
        decreases k - i,
    {
        proof { lemma_concat_map_take(d, i as int, |m: EndpointMatch| endpoint_match_line(m, wn)); }
        let line = endpoint_line_exec(&ms[i], w);
        push_str(&mut out, line.as_str());
        i = i + 1;
    }
    assert(d.take(k as int) =~= d);
    out
}

fn schemas_exec(ms: &Vec<SchemaMatch>, limit: Option<usize>) -> (out: String)
    ensures
        out@ == schemas_text(ms@, limit),
{
    let mut out = String::new();
    if ms.len() == 0 {
        assert(out@ =~= schemas_text(ms@, limit));
        return out;
    }
    push_heading(&mut out, "Schemas", ms.len(), limit);
    let k = shown_count(ms.len(), limit);
    let ghost d = shown(ms@, limit);
    assert(d =~= ms@.take(k as int));
    let ghost start = out@;
    let mut i: usize = 0;
    while i < k
        invariant
            i <= k <= ms@.len(),
            d == ms@.take(k as int),
            out@ == start + concat_map(d.take(i as int), |m: SchemaMatch| schema_match_line(m)),
        decreases k - i,
    {
        proof { lemma_concat_map_take(d, i as int, |m: SchemaMatch| schema_match_line(m)); }
        let m = &ms[i];
        let mut line = owned("  ");
        push_san(&mut line, m.name.as_str());
        match &m.matched_field {
            Some(f) => {
                push_str(&mut line, " (field: ");
                push_san(&mut line, f.as_str());
                push_str(&mut line, ")\n");
            },
            None => match &m.matched_on {
                Some(r) => {
                    push_str(&mut line, " (");
                    push_san(&mut line, r.as_str());
                    push_str(&mut line, ")\n");
                },
                None => {
                    push_str(&mut line, "\n");
                },
            },
        }
        push_str(&mut out, line.as_str());
        i = i + 1;
    }
    assert(d.take(k as int) =~= d);
    out
}

fn callbacks_exec(ms: &Vec<CallbackMatch>, limit: Option<usize>, is_tty: bool) -> (out: String)
    ensures
        out@ == callbacks_text(ms@, limit, is_tty),
{
    let mut out = String::new();
    if ms.len() == 0 {
        assert(out@ =~= callbacks_text(ms@, limit, is_tty));
        return out;
    }
    push_heading(&mut out, "Callbacks", ms.len(), limit);
    let k = shown_count(ms.len(), limit);
    let ghost d = shown(ms@, limit);
    assert(d =~= ms@.take(k as int));
    let ghost start = out@;
    let mut i: usize = 0;
    while i < k
        invariant
            i <= k <= ms@.len(),
            d == ms@.take(k as int),
            out@ == start + concat_map(d.take(i as int), |m: CallbackMatch| callback_match_line(m, is_tty)),
        decreases k - i,
    {
        proof { lemma_concat_map_take(d, i as int, |m: CallbackMatch| callback_match_line(m, is_tty)); }
        let m = &ms[i];
        let mut line = owned("  ");
        push_san(&mut line, m.name.as_str());
        push_str(&mut line, "  (on ");
        push_san(&mut line, m.defined_on_path.as_str());
        push_str(&mut line, ")\n");
        let ghost l1 = line@;
        if is_tty {
            push_str(&mut line, "    phyll --callbacks ");
            push_san(&mut line, m.name.as_str());
            push_str(&mut line, "\n");
        }
        assert(line@ =~= l1 + only_if(is_tty, "    phyll --callbacks "@ + san(m.name@) + "\n"@));
        push_str(&mut out, line.as_str());
        i = i + 1;
    }
    assert(d.take(k as int) =~= d);
    out
}

fn schemes_exec(ms: &Vec<SecuritySchemeMatch>, is_tty: bool) -> (out: String)
    ensures
        out@ == schemes_text(ms@, is_tty),
{
    let mut out = String::new();
    if ms.len() == 0 {
        assert(out@ =~= schemes_text(ms@, is_tty));
        return out;
    }
    push_str(&mut out, "\nSecurity Schemes:\n");
    let ghost start = out@;
    let mut i: usize = 0;
    while i < ms.len()
        invariant
            i <= ms.len(),
            out@ == start + concat_map(ms@.take(i as int), |m: SecuritySchemeMatch| scheme_match_line(m, is_tty)),
        decreases ms.len() - i,
    {
        proof { lemma_concat_map_take(ms@, i as int, |m: SecuritySchemeMatch| scheme_match_line(m, is_tty)); }
        let m = &ms[i];
        let mut line = owned("  ");
        push_san(&mut line, m.name.as_str());
        push_str(&mut line, " (");
        push_san(&mut line, m.scheme_type.as_str());
        push_str(&mut line, ")");
        let ghost l0 = line@;
        match &m.description {
            Some(d) => {
                push_str(&mut line, "  ");
                push_san(&mut line, d.as_str());
            },
            None => {},
        }
        assert(line@ =~= l0 + (match m.description {
            Some(d) => "  "@ + san(d@),
            None => seq![],
        }));
        push_str(&mut line, "\n");
        let ghost l1 = line@;
        if is_tty {
            push_str(&mut line, "    phyll --auth\n");
        }
        assert(line@ =~= l1 + only_if(is_tty, "    phyll --auth\n"@));
        push_str(&mut out, line.as_str());
        i = i + 1;
    }
    assert(ms@.take(ms@.len() as int) =~= ms@);
    out
}


fn no_results_exec(r: &SearchResults) -> (out: String)
    ensures
        out@ == no_results_text(*r),
{
    let mut out = owned("No results found for \"");
    push_str(&mut out, r.term.as_str());
    push_str(&mut out, "\".\n");
    if r.suggestions.len() > 0 {
        push_str(&mut out, "Did you mean:\n");
        let ghost start = out@;
        let mut i: usize = 0;
        while i < r.suggestions.len()
            invariant
                i <= r.suggestions.len(),
                out@ == start + concat_map(r.suggestions@.take(i as int), |s: String| suggestion_line(s)),
            decreases r.suggestions.len() - i,
        {
            proof { lemma_concat_map_take(r.suggestions@, i as int, |s: String| suggestion_line(s)); }
            let mut line = owned("  phyll search ");
            push_san(&mut line, r.suggestions[i].as_str());
            push_str(&mut line, "\n");
            push_str(&mut out, line.as_str());
            i = i + 1;
        }
        assert(r.suggestions@.take(r.suggestions@.len() as int) =~= r.suggestions@);
    }
    assert(out@ =~= no_results_text(*r));
    out
}

fn push_count(parts: &mut Vec<String>, n: usize, what: &str)
    ensures
        final(parts)@.map_values(|p: String| p@) == old(parts)@.map_values(|p: String| p@)
            + count_item(n as nat, what@),
{
    if n > 0 {
        let mut t = usize_to_string(n);
        push_str(&mut t, what);
        parts.push(t);
    }
    assert(parts@.map_values(|p: String| p@) =~= old(parts)@.map_values(|p: String| p@)
        + count_item(n as nat, what@));
}

fn found_line(r: &SearchResults) -> (out: String)
    ensures
        out@ == "Found "@ + join(counts(*r), ", "@) + "\n"@,
{
    let mut parts: Vec<String> = Vec::new();
    assert(parts@.map_values(|p: String| p@) =~= Seq::<Seq<char>>::empty());
    push_count(&mut parts, r.resources.len(), " resource(s)");
    push_count(&mut parts, r.endpoints.len(), " endpoint(s)");
    push_count(&mut parts, r.schemas.len(), " schema(s)");
    push_count(&mut parts, r.callbacks.len(), " callback(s)");
    push_count(&mut parts, r.security_schemes.len(), " security scheme(s)");
    assert(parts@.map_values(|p: String| p@) =~= counts(*r));
    let mut out = owned("Found ");
    let j = crate::strutil::join_strings(&parts, ", ");
    push_str(&mut out, j.as_str());
    push_str(&mut out, "\n");
    out
}

fn drill_exec(r: &SearchResults, is_tty: bool) -> (out: String)
    ensures
        out@ == search_drill(*r, is_tty),
{
    let mut out = String::new();
    if !(is_tty && (r.resources.len() > 0 || r.schemas.len() > 0)) {
        assert(out@ =~= search_drill(*r, is_tty));
        return out;
    }
    push_str(&mut out, "\nDrill deeper:\n");
    let kr: usize = if r.resources.len() > 5 { 5 } else { r.resources.len() };
    let ghost dr = first_five(r.resources@);
    assert(dr =~= r.resources@.take(kr as int));
    let ghost s1 = out@;
    let mut i: usize = 0;
    while i < kr
        invariant
            i <= kr <= r.resources@.len(),
            dr == r.resources@.take(kr as int),
            out@ == s1 + concat_map(dr.take(i as int), |m: ResourceMatch| resource_drill(m)),
        decreases kr - i,
    {
        proof { lemma_concat_map_take(dr, i as int, |m: ResourceMatch| resource_drill(m)); }
        let mut line = owned("  phyll --resources ");
        push_san(&mut line, r.resources[i].slug.as_str());
        push_str(&mut line, "\n");
        push_str(&mut out, line.as_str());
        i = i + 1;
    }
    assert(dr.take(kr as int) =~= dr);
    let ks: usize = if r.schemas.len() > 5 { 5 } else { r.schemas.len() };
    let ghost ds = first_five(r.schemas@);
    assert(ds =~= r.schemas@.take(ks as int));
    let ghost s2 = out@;
    let mut i: usize = 0;
    while i < ks
        invariant
            i <= ks <= r.schemas@.len(),
            ds == r.schemas@.take(ks as int),
            out@ == s2 + concat_map(ds.take(i as int), |m: SchemaMatch| schema_drill(m)),
        decreases ks - i,
    {
        proof { lemma_concat_map_take(ds, i as int, |m: SchemaMatch| schema_drill(m)); }
        let mut line = owned("  phyll --schemas ");
        push_san(&mut line, r.schemas[i].name.as_str());
        push_str(&mut line, "\n");
        push_str(&mut out, line.as_str());
        i = i + 1;
    }
    assert(ds.take(ks as int) =~= ds);
    out
}

fn sections_exec(results: &SearchResults, limit: Option<usize>, is_tty: bool) -> (out: String)
    ensures
        out@ == search_sections(*results, limit, is_tty),
{
    let mut out = resources_exec(&results.resources, limit);
    let t2 = endpoints_exec(&results.endpoints, limit);
    push_str(&mut out, t2.as_str());
    let t3 = schemas_exec(&results.schemas, limit);
    push_str(&mut out, t3.as_str());
    let t4 = callbacks_exec(&results.callbacks, limit, is_tty);
    push_str(&mut out, t4.as_str());
    let t5 = schemes_exec(&results.security_schemes, is_tty);
    push_str(&mut out, t5.as_str());
    let t6 = drill_exec(results, is_tty);
    push_str(&mut out, t6.as_str());
    out
}

/// Renders search results: the matches of each kind, each list cut at
/// `limit` where one is given, or what else to search for when nothing
/// matched.
pub fn render_search(results: &SearchResults, _bin_name: &str, limit: Option<usize>, is_tty: bool) -> (r: String)
    ensures
        r@ == spec_render_search(*results, limit, is_tty),
{
    if !(results.resources.len() > 0 || results.endpoints.len() > 0 || results.schemas.len() > 0
        || results.callbacks.len() > 0 || results.security_schemes.len() > 0) {
        return no_results_exec(results);
    }
    let mut out = owned("Results for \"");
    push_str(&mut out, results.term.as_str());
    push_str(&mut out, "\":\n");
    let f = found_line(results);
    push_str(&mut out, f.as_str());
    let t = sections_exec(results, limit, is_tty);
    push_str(&mut out, t.as_str());
    out
}

} // verus!
