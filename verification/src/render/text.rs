//! Plain-text renderers. Every string that comes from a document passes
//! through `sanitize` before it is printed.
use vstd::prelude::*;
use crate::strutil::{
    blank, concat_map, decimal, is_blank, lemma_concat_map_take, len_bytes, max_of,
    lemma_max_of_take, pad_left, pad_right, push_padded, push_padded_left, push_str, push_usize,
    str_len, uppercase, str_to_uppercase,
};
use crate::models::resource::{
    CallbackEntry, CallbackOperation, CallbackResponse, Endpoint, ResourceGroup,
};
use crate::commands::schemas::SchemaUsage;
use crate::commands::auth::{AuthModel, OAuth2FlowInfo, OAuth2ScopeInfo, SecuritySchemeInfo};
use crate::render::sanitize::{
    join_san, opt_text, owned, push_join_san, push_san, push_san_opt, san, sanitize, str_eq, only_if,
};
use crate::commands::overview::{OverviewData, ServerVar};
pub use crate::render::endpoint::{render_endpoint_detail, render_related_schemas};
pub use crate::render::schema::render_schema_detail;
pub use crate::render::search::render_search;

verus! {

// ───────────────────────── overview ─────────────────────────

pub open spec fn server_var_line(v: ServerVar) -> Seq<char> {
    "    "@ + san(v.name@) + "  ("@ + (if v.required { "required"@ } else { "optional"@ }) + ")  "@
        + san(opt_text(v.description)) + (match v.default {
        Some(d) => "  default: "@ + san(d@),
        None => seq![],
    }) + "\n"@
}

pub open spec fn top_resource_line(t: (String, usize)) -> Seq<char> {
    "  "@ + pad_right(san(t.0@), 24) + " ("@ + decimal(t.1 as nat) + " endpoints)\n"@
}

pub open spec fn url_line(u: String) -> Seq<char> {
    "  "@ + san(u@) + "\n"@
}

pub open spec fn overview_desc(data: OverviewData) -> Seq<char> {
    match data.description {
        Some(d) => only_if(!is_blank(d@), san(d@) + "\n"@),
        None => seq![],
    }
}

pub open spec fn overview_urls(data: OverviewData) -> Seq<char> {
    if data.base_urls@.len() == 1 {
        "Base URL: "@ + san(data.base_urls@[0]@) + "\n"@
    } else if data.base_urls@.len() > 0 {
        "Base URLs:\n"@ + concat_map(data.base_urls@, |u: String| url_line(u))
    } else {
        seq![]
    }
}

pub open spec fn overview_vars(data: OverviewData) -> Seq<char> {
    only_if(data.server_variables@.len() > 0,
        "  Variables:\n"@ + concat_map(data.server_variables@, |v: ServerVar| server_var_line(v)))
}

pub open spec fn overview_auth(data: OverviewData) -> Seq<char> {
    only_if(data.auth_schemes@.len() > 0, "Auth: "@ + join_san(data.auth_schemes@, ", "@) + "\n"@)
}

pub open spec fn overview_top(data: OverviewData) -> Seq<char> {
    only_if(data.top_resources@.len() > 0,
        "\n"@ + "Top Resources:\n"@ + concat_map(data.top_resources@, |t: (String, usize)| top_resource_line(t)))
}

pub open spec fn overview_resources_cmd(data: OverviewData, bin: Seq<char>) -> Seq<char> {
    if data.resource_count > 0 {
        "  "@ + bin + " --resources   List all resource groups ("@ + decimal(data.resource_count as nat)
            + " groups, "@ + decimal(data.endpoint_count as nat) + " endpoints)\n"@
    } else {
        "  "@ + bin + " --resources   List all endpoints ("@ + decimal(data.endpoint_count as nat)
            + " endpoints across "@ + decimal(data.path_count as nat) + " paths)\n"@
    }
}

pub open spec fn overview_other_cmds(data: OverviewData, bin: Seq<char>) -> Seq<char> {
    "  "@ + bin + " --schemas     List all data models ("@ + decimal(data.schema_count as nat) + " available)\n"@
    + "  "@ + bin + " --auth        Authentication details\n"@
    + "  "@ + bin + " --callbacks   List all webhook callbacks ("@ + decimal(data.callback_count as nat) + " available)\n"@
    + "  "@ + bin + " search       Search across all endpoints and schemas\n"@
}

pub open spec fn overview_tip(bin: Seq<char>) -> Seq<char> {
    only_if(bin != "phyll"@, "\nTip: 'phyll' is a shorter alias for 'phyllotaxis'.\n"@)
}

/// The text of the API overview.
pub open spec fn spec_render_overview(data: OverviewData, bin: Seq<char>) -> Seq<char> {
    "API: "@ + san(data.title@) + "\n"@ + overview_desc(data) + overview_urls(data) + overview_vars(data)
        + overview_auth(data) + overview_top(data) + "\n"@ + "Commands:\n"@
        + overview_resources_cmd(data, bin) + overview_other_cmds(data, bin) + overview_tip(bin)
}

fn overview_desc_exec(data: &OverviewData) -> (out: String)
    ensures
        out@ == overview_desc(*data),
{
    let mut out = String::new();
    match &data.description {
        Some(d) => {
            if !blank(d.as_str()) {
                out = sanitize(d.as_str());
                push_str(&mut out, "\n");
            } else {
                assert(out@ =~= overview_desc(*data));
            }
        },
        None => {
            assert(out@ =~= overview_desc(*data));
        },
    }
    out
}

fn overview_urls_exec(data: &OverviewData) -> (out: String)
    ensures
        out@ == overview_urls(*data),
{
    if data.base_urls.len() == 1 {
        let mut out = owned("Base URL: ");
        push_san(&mut out, data.base_urls[0].as_str());
        push_str(&mut out, "\n");
        out
    } else if data.base_urls.len() > 0 {
        let mut out = owned("Base URLs:\n");
        let ghost p = out@;
        let mut i: usize = 0;
        while i < data.base_urls.len()
            invariant
                i <= data.base_urls.len(),
                out@ == p + concat_map(data.base_urls@.take(i as int), |u: String| url_line(u)),
            decreases data.base_urls.len() - i,
        {
            proof { lemma_concat_map_take(data.base_urls@, i as int, |u: String| url_line(u)); }
            let mut line = owned("  ");
            push_san(&mut line, data.base_urls[i].as_str());
            push_str(&mut line, "\n");
            push_str(&mut out, line.as_str());
            i = i + 1;
        }
        assert(data.base_urls@.take(data.base_urls@.len() as int) =~= data.base_urls@);
        out
    } else {
        let out = String::new();
        assert(out@ =~= overview_urls(*data));
        out
    }
}

fn server_var_line_exec(var: &ServerVar) -> (line: String)
    ensures
        line@ == server_var_line(*var),
{
    let mut line = owned("    ");
    push_san(&mut line, var.name.as_str());
    push_str(&mut line, "  (");
    if var.required {
        push_str(&mut line, "required");
    } else {
        push_str(&mut line, "optional");
    }
    push_str(&mut line, ")  ");
    push_san_opt(&mut line, &var.description);
    let mut dflt = String::new();
    match &var.default {
        Some(d) => {
            dflt = owned("  default: ");
            push_san(&mut dflt, d.as_str());
        },
        None => {},
    }
    assert(dflt@ == match var.default { Some(d) => "  default: "@ + san(d@), None => seq![] });
    push_str(&mut line, dflt.as_str());
    push_str(&mut line, "\n");
    line
}

fn overview_vars_exec(data: &OverviewData) -> (out: String)
    ensures
        out@ == overview_vars(*data),
{
    if data.server_variables.len() > 0 {
        let mut out = owned("  Variables:\n");
        let ghost p = out@;
        let mut i: usize = 0;
        while i < data.server_variables.len()
            invariant
                i <= data.server_variables.len(),
                out@ == p + concat_map(data.server_variables@.take(i as int), |v: ServerVar| server_var_line(v)),
            decreases data.server_variables.len() - i,
        {
            proof { lemma_concat_map_take(data.server_variables@, i as int, |v: ServerVar| server_var_line(v)); }
            let line = server_var_line_exec(&data.server_variables[i]);
            push_str(&mut out, line.as_str());
            i = i + 1;
        }
        assert(data.server_variables@.take(data.server_variables@.len() as int) =~= data.server_variables@);
        out
    } else {
        let out = String::new();
        assert(out@ =~= overview_vars(*data));
        out
    }
}

fn overview_auth_exec(data: &OverviewData) -> (out: String)
    ensures
        out@ == overview_auth(*data),
{
    if data.auth_schemes.len() > 0 {
        let mut out = owned("Auth: ");
        push_join_san(&mut out, data.auth_schemes.as_slice(), ", ");
        push_str(&mut out, "\n");
        out
    } else {
        let out = String::new();
        assert(out@ =~= overview_auth(*data));
        out
    }
}

fn overview_top_exec(data: &OverviewData) -> (out: String)
    ensures
        out@ == overview_top(*data),
{
    if data.top_resources.len() > 0 {
        let mut out = owned("\n");
        push_str(&mut out, "Top Resources:\n");
        let ghost p = out@;
        let mut i: usize = 0;
        while i < data.top_resources.len()
            invariant
                i <= data.top_resources.len(),
                out@ == p + concat_map(data.top_resources@.take(i as int), |t: (String, usize)| top_resource_line(t)),
            decreases data.top_resources.len() - i,
        {
            proof { lemma_concat_map_take(data.top_resources@, i as int, |t: (String, usize)| top_resource_line(t)); }
            let slug = sanitize(data.top_resources[i].0.as_str());
            let mut line = owned("  ");
            push_padded(&mut line, slug.as_str(), 24);
            push_str(&mut line, " (");
            push_usize(&mut line, data.top_resources[i].1);
            push_str(&mut line, " endpoints)\n");
            push_str(&mut out, line.as_str());
            i = i + 1;
        }
        assert(data.top_resources@.take(data.top_resources@.len() as int) =~= data.top_resources@);
        out
    } else {
        let out = String::new();
        assert(out@ =~= overview_top(*data));
        out
    }
}

fn overview_resources_cmd_exec(data: &OverviewData, bin_name: &str) -> (out: String)
    ensures
        out@ == overview_resources_cmd(*data, bin_name@),
{
    let mut out = owned("  ");
    push_str(&mut out, bin_name);
    if data.resource_count > 0 {
        push_str(&mut out, " --resources   List all resource groups (");
        push_usize(&mut out, data.resource_count);
        push_str(&mut out, " groups, ");
        push_usize(&mut out, data.endpoint_count);
        push_str(&mut out, " endpoints)\n");
    } else {
        push_str(&mut out, " --resources   List all endpoints (");
        push_usize(&mut out, data.endpoint_count);
        push_str(&mut out, " endpoints across ");
        push_usize(&mut out, data.path_count);
        push_str(&mut out, " paths)\n");
    }
    out
}

fn overview_other_cmds_exec(data: &OverviewData, bin_name: &str) -> (out: String)
    ensures
        out@ == overview_other_cmds(*data, bin_name@),
{
    let mut out = owned("  ");
    push_str(&mut out, bin_name);
    push_str(&mut out, " --schemas     List all data models (");
    push_usize(&mut out, data.schema_count);
    push_str(&mut out, " available)\n");
    push_str(&mut out, "  ");
    push_str(&mut out, bin_name);
    push_str(&mut out, " --auth        Authentication details\n");
    push_str(&mut out, "  ");
    push_str(&mut out, bin_name);
    push_str(&mut out, " --callbacks   List all webhook callbacks (");
    push_usize(&mut out, data.callback_count);
    push_str(&mut out, " available)\n");
    push_str(&mut out, "  ");
    push_str(&mut out, bin_name);
    push_str(&mut out, " search       Search across all endpoints and schemas\n");
    out
}

fn overview_tip_exec(bin_name: &str) -> (out: String)
    ensures
        out@ == overview_tip(bin_name@),
{
    if !str_eq(bin_name, "phyll") {
        owned("\nTip: 'phyll' is a shorter alias for 'phyllotaxis'.\n")
    } else {
        let out = String::new();
        assert(out@ =~= overview_tip(bin_name@));
        out
    }
}

/// Renders the API overview: title, description, base URLs, server
/// variables, auth schemes, top resources and the commands to go deeper.
pub fn render_overview(data: &OverviewData, bin_name: &str, _is_tty: bool) -> (r: String)
    ensures
        r@ == spec_render_overview(*data, bin_name@),
{
    let mut out = owned("API: ");
    push_san(&mut out, data.title.as_str());
    push_str(&mut out, "\n");
    let s1 = overview_desc_exec(data);
    push_str(&mut out, s1.as_str());
    let s2 = overview_urls_exec(data);
    push_str(&mut out, s2.as_str());
    let s3 = overview_vars_exec(data);
    push_str(&mut out, s3.as_str());
    let s4 = overview_auth_exec(data);
    push_str(&mut out, s4.as_str());
    let s5 = overview_top_exec(data);
    push_str(&mut out, s5.as_str());
    push_str(&mut out, "\n");
    push_str(&mut out, "Commands:\n");
    let s6 = overview_resources_cmd_exec(data, bin_name);
    push_str(&mut out, s6.as_str());
    let s7 = overview_other_cmds_exec(data, bin_name);
    push_str(&mut out, s7.as_str());
    let s8 = overview_tip_exec(bin_name);
    push_str(&mut out, s8.as_str());
    out
}


// ───────────────────────── schema list ─────────────────────────

pub open spec fn name_line(n: String) -> Seq<char> {
    "  "@ + san(n@) + "\n"@
}

pub open spec fn spec_render_schema_list(names: Seq<String>, is_tty: bool) -> Seq<char> {
    "Schemas ("@ + decimal(names.len()) + " total):\n"@
        + (if names.len() == 0 { "  (none)\n"@ } else { concat_map(names, |n: String| name_line(n)) })
        + only_if(is_tty, "\nDrill deeper:\n"@ + "  phyll --schemas <name>\n"@)
}

/// The lines `name_line` of every string of `v`.
fn name_lines(v: &[String]) -> (out: String)
    ensures
        out@ == concat_map(v@, |n: String| name_line(n)),
{
    let mut out = String::new();
    let ghost p = out@;
    let mut i: usize = 0;
    while i < v.len()
        invariant
            i <= v.len(),
            p == Seq::<char>::empty(),
            out@ == p + concat_map(v@.take(i as int), |n: String| name_line(n)),
        decreases v.len() - i,
    {
        proof { lemma_concat_map_take(v@, i as int, |n: String| name_line(n)); }
        let mut line = owned("  ");
        push_san(&mut line, v[i].as_str());
        push_str(&mut line, "\n");
        push_str(&mut out, line.as_str());
        i = i + 1;
    }
    assert(v@.take(v@.len() as int) =~= v@);
    assert(out@ =~= concat_map(v@, |n: String| name_line(n)));
    out
}

fn drill_hint(is_tty: bool, hint: &str) -> (out: String)
    ensures
        out@ == only_if(is_tty, "\nDrill deeper:\n"@ + hint@),
{
    if is_tty {
        let mut out = owned("\nDrill deeper:\n");
        push_str(&mut out, hint);
        out
    } else {
        let out = String::new();
        assert(out@ =~= only_if(is_tty, "\nDrill deeper:\n"@ + hint@));
        out
    }
}

/// Renders the list of schema names.
pub fn render_schema_list(names: &[String], _bin_name: &str, is_tty: bool) -> (r: String)
    ensures
        r@ == spec_render_schema_list(names@, is_tty),
{
    let mut out = owned("Schemas (");
    push_usize(&mut out, names.len());
    push_str(&mut out, " total):\n");
    if names.len() == 0 {
        push_str(&mut out, "  (none)\n");
    } else {
        let lines = name_lines(names);
        push_str(&mut out, lines.as_str());
    }
    let d = drill_hint(is_tty, "  phyll --schemas <name>\n");
    push_str(&mut out, d.as_str());
    out
}

// ───────────────────────── callbacks ─────────────────────────

pub open spec fn callback_list_line(cb: CallbackEntry) -> Seq<char> {
    "  "@ + san(cb.name@) + " ("@ + decimal(cb.operations@.len()) + " "@
        + (if cb.operations@.len() == 1 { "operation"@ } else { "operations"@ }) + ")  (on "@
        + san(cb.defined_on_method@) + " "@ + san(cb.defined_on_path@) + ")\n"@
}

pub open spec fn spec_render_callback_list(cbs: Seq<CallbackEntry>, is_tty: bool) -> Seq<char> {
    if cbs.len() == 0 {
        "Callbacks: (none)\n"@
    } else {
        "Callbacks ("@ + decimal(cbs.len()) + " total):\n"@
            + concat_map(cbs, |cb: CallbackEntry| callback_list_line(cb))
            + only_if(is_tty, "\nDrill deeper:\n"@ + "  phyll --callbacks <name>\n"@)
    }
}

/// Renders the list of callbacks with their operation counts and origin.
pub fn render_callback_list(callbacks: &[CallbackEntry], _bin_name: &str, is_tty: bool) -> (r: String)
    ensures
        r@ == spec_render_callback_list(callbacks@, is_tty),
{
    if callbacks.len() == 0 {
        return owned("Callbacks: (none)\n");
    }
    let mut out = owned("Callbacks (");
    push_usize(&mut out, callbacks.len());
    push_str(&mut out, " total):\n");
    let mut body = String::new();
    let mut i: usize = 0;
    while i < callbacks.len()
        invariant
            i <= callbacks.len(),
            body@ == concat_map(callbacks@.take(i as int), |cb: CallbackEntry| callback_list_line(cb)),
        decreases callbacks.len() - i,
    {
        proof { lemma_concat_map_take(callbacks@, i as int, |cb: CallbackEntry| callback_list_line(cb)); }
        let cb = &callbacks[i];
        let n = cb.operations.len();
        let mut line = owned("  ");
        push_san(&mut line, cb.name.as_str());
        push_str(&mut line, " (");
        push_usize(&mut line, n);
        push_str(&mut line, " ");
        if n == 1 {
            push_str(&mut line, "operation");
        } else {
            push_str(&mut line, "operations");
        }
        push_str(&mut line, ")  (on ");
        push_san(&mut line, cb.defined_on_method.as_str());
        push_str(&mut line, " ");
        push_san(&mut line, cb.defined_on_path.as_str());
        push_str(&mut line, ")\n");
        push_str(&mut body, line.as_str());
        i = i + 1;
    }
    assert(callbacks@.take(callbacks@.len() as int) =~= callbacks@);
    push_str(&mut out, body.as_str());
    let d = drill_hint(is_tty, "  phyll --callbacks <name>\n");
    push_str(&mut out, d.as_str());
    out
}

pub open spec fn callback_response_line(r: CallbackResponse) -> Seq<char> {
    "      "@ + san(r.status_code@) + "  "@ + san(r.description@) + "\n"@
}

pub open spec fn body_line(o: Option<String>) -> Seq<char> {
    match o {
        Some(s) => "    Body: "@ + san(s@) + "\n"@,
        None => seq![],
    }
}

pub open spec fn callback_op_block(op: CallbackOperation) -> Seq<char> {
    "\n  "@ + san(op.method@) + " "@ + san(op.url_expression@) + "\n"@ + body_line(op.body_schema)
        + only_if(op.responses@.len() > 0,
            "    Responses:\n"@ + concat_map(op.responses@, |r: CallbackResponse| callback_response_line(r)))
}

/// The body schema names of callback operations that can be drilled into.
pub open spec fn callback_schema_names(ops: Seq<CallbackOperation>) -> Seq<Seq<char>>
    decreases ops.len(),
{
    if ops.len() == 0 {
        seq![]
    } else {
        let head = callback_schema_names(ops.drop_last());
        match ops.last().body_schema {
            Some(s) => if s@ != "inline object"@ { head.push(s@) } else { head },
            None => head,
        }
    }
}

pub open spec fn schema_drill_line(n: Seq<char>) -> Seq<char> {
    "  phyll --schemas "@ + san(n) + "\n"@
}

pub open spec fn spec_render_callback_detail(cb: CallbackEntry, is_tty: bool) -> Seq<char> {
    let names = callback_schema_names(cb.operations@);
    "Callback: "@ + san(cb.name@) + "\n"@ + "Defined on: "@ + san(cb.defined_on_method@) + " "@
        + san(cb.defined_on_path@) + "\n"@
        + concat_map(cb.operations@, |op: CallbackOperation| callback_op_block(op))
        + only_if(is_tty && names.len() > 0,
            "\nDrill deeper:\n"@ + concat_map(names, |n: Seq<char>| schema_drill_line(n)))
}

fn callback_op_block_exec(op: &CallbackOperation) -> (out: String)
    ensures
        out@ == callback_op_block(*op),
{
    let mut out = owned("\n  ");
    push_san(&mut out, op.method.as_str());
    push_str(&mut out, " ");
    push_san(&mut out, op.url_expression.as_str());
    push_str(&mut out, "\n");
    let mut b = String::new();
    match &op.body_schema {
        Some(s) => {
            b = owned("    Body: ");
            push_san(&mut b, s.as_str());
            push_str(&mut b, "\n");
        },
        None => {},
    }
    assert(b@ =~= body_line(op.body_schema));
    push_str(&mut out, b.as_str());
    let mut rs = String::new();
    if op.responses.len() > 0 {
        rs = owned("    Responses:\n");
        let ghost p = rs@;
        let mut i: usize = 0;
        while i < op.responses.len()
            invariant
                i <= op.responses.len(),
                rs@ == p + concat_map(op.responses@.take(i as int), |r: CallbackResponse| callback_response_line(r)),
            decreases op.responses.len() - i,
        {
            proof { lemma_concat_map_take(op.responses@, i as int, |r: CallbackResponse| callback_response_line(r)); }
            let mut line = owned("      ");
            push_san(&mut line, op.responses[i].status_code.as_str());
            push_str(&mut line, "  ");
            push_san(&mut line, op.responses[i].description.as_str());
            push_str(&mut line, "\n");
            push_str(&mut rs, line.as_str());
            i = i + 1;
        }
        assert(op.responses@.take(op.responses@.len() as int) =~= op.responses@);
    }
    assert(rs@ =~= only_if(op.responses@.len() > 0,
        "    Responses:\n"@ + concat_map(op.responses@, |r: CallbackResponse| callback_response_line(r))));
    push_str(&mut out, rs.as_str());
    out
}

/// Renders one callback: its origin, then each operation with its body
/// schema and responses.
pub fn render_callback_detail(cb: &CallbackEntry, _bin_name: &str, is_tty: bool) -> (r: String)
    ensures
        r@ == spec_render_callback_detail(*cb, is_tty),
{
    let mut out = owned("Callback: ");
    push_san(&mut out, cb.name.as_str());
    push_str(&mut out, "\n");
    push_str(&mut out, "Defined on: ");
    push_san(&mut out, cb.defined_on_method.as_str());
    push_str(&mut out, " ");
    push_san(&mut out, cb.defined_on_path.as_str());
    push_str(&mut out, "\n");
    let mut ops = String::new();
    let mut drill = String::new();
    let mut count: usize = 0;
    let mut i: usize = 0;
    while i < cb.operations.len()
        invariant
            i <= cb.operations.len(),
            ops@ == concat_map(cb.operations@.take(i as int), |op: CallbackOperation| callback_op_block(op)),
            drill@ == concat_map(callback_schema_names(cb.operations@.take(i as int)), |n: Seq<char>| schema_drill_line(n)),
            count == callback_schema_names(cb.operations@.take(i as int)).len(),
            count <= i,
        decreases cb.operations.len() - i,
    {
        proof {
            lemma_concat_map_take(cb.operations@, i as int, |op: CallbackOperation| callback_op_block(op));
            assert(cb.operations@.take(i + 1).drop_last() =~= cb.operations@.take(i as int));
        }
        let block = callback_op_block_exec(&cb.operations[i]);
        push_str(&mut ops, block.as_str());
        let ghost names_before = callback_schema_names(cb.operations@.take(i as int));
        match &cb.operations[i].body_schema {
            Some(s) => {
                if !str_eq(s.as_str(), "inline object") {
                    let mut line = owned("  phyll --schemas ");
                    push_san(&mut line, s.as_str());
                    push_str(&mut line, "\n");
                    push_str(&mut drill, line.as_str());
                    proof {
                        crate::strutil::lemma_concat_map_push(names_before, s@, |n: Seq<char>| schema_drill_line(n));
                    }
                    count = count + 1;
                }
            },
            None => {},
        }
        i = i + 1;
    }
    assert(cb.operations@.take(cb.operations@.len() as int) =~= cb.operations@);
    push_str(&mut out, ops.as_str());
    if is_tty && count > 0 {
        push_str(&mut out, "\nDrill deeper:\n");
        push_str(&mut out, drill.as_str());
    } else {
        let ghost names = callback_schema_names(cb.operations@);
        assert(out@ =~= out@ + only_if(is_tty && names.len() > 0,
            "\nDrill deeper:\n"@ + concat_map(names, |n: Seq<char>| schema_drill_line(n))));
    }
    out
}

// ───────────────────────── schema usage ─────────────────────────

pub open spec fn usages_of_kind(us: Seq<SchemaUsage>, kind: Seq<char>) -> Seq<SchemaUsage>
    decreases us.len(),
{
    if us.len() == 0 {
        seq![]
    } else if us.last().usage_type@ == kind {
        usages_of_kind(us.drop_last(), kind).push(us.last())
    } else {
        usages_of_kind(us.drop_last(), kind)
    }
}

pub open spec fn usage_line(u: SchemaUsage) -> Seq<char> {
    "    "@ + pad_right(u.method@, 6) + "  "@ + san(u.path@) + "\n"@
}

pub open spec fn usage_line_drill(u: SchemaUsage) -> Seq<char> {
    usage_line(u) + only_if(u.resource_slug is Some,
        "      phyll --endpoint "@ + u.method@ + " "@ + san(u.path@) + "\n"@)
}

pub open spec fn usage_section(title: Seq<char>, us: Seq<SchemaUsage>) -> Seq<char> {
    only_if(us.len() > 0, title + concat_map(us, |u: SchemaUsage| usage_line_drill(u)) + "\n"@)
}

pub open spec fn spec_render_schema_usage(name: Seq<char>, us: Seq<SchemaUsage>) -> Seq<char> {
    let params = usages_of_kind(us, "parameter"@);
    "Schema: "@ + san(name) + "\n"@ + "\n"@ + if us.len() == 0 {
        "  Not found in any endpoint request bodies, responses, or parameters.\n"@
    } else {
        "Used by "@ + decimal(us.len()) + " endpoint(s):\n"@ + "\n"@
            + usage_section("  In request body:\n"@, usages_of_kind(us, "request body"@))
            + usage_section("  In response:\n"@, usages_of_kind(us, "response"@))
            + only_if(params.len() > 0,
                "  In parameter:\n"@ + concat_map(params, |u: SchemaUsage| usage_line(u)))
    }
}

fn usage_line_exec(u: &SchemaUsage, drill: bool) -> (out: String)
    ensures
        out@ == if drill { usage_line_drill(*u) } else { usage_line(*u) },
{
    let mut out = owned("    ");
    push_padded(&mut out, u.method.as_str(), 6);
    push_str(&mut out, "  ");
    push_san(&mut out, u.path.as_str());
    push_str(&mut out, "\n");
    if drill {
        let ghost base = out@;
        if u.resource_slug.is_some() {
            push_str(&mut out, "      phyll --endpoint ");
            push_str(&mut out, u.method.as_str());
            push_str(&mut out, " ");
            push_san(&mut out, u.path.as_str());
            push_str(&mut out, "\n");
            assert(out@ =~= base + only_if(u.resource_slug is Some,
                "      phyll --endpoint "@ + u.method@ + " "@ + san(u.path@) + "\n"@));
        } else {
            assert(out@ =~= base + only_if(u.resource_slug is Some,
                "      phyll --endpoint "@ + u.method@ + " "@ + san(u.path@) + "\n"@));
        }
    }
    out
}

/// Lines of the usages of one kind, in order, and how many there were.
fn usage_lines_of_kind(usages: &[SchemaUsage], kind: &str, drill: bool) -> (r: (String, usize))
    ensures
        r.0@ == if drill {
            concat_map(usages_of_kind(usages@, kind@), |u: SchemaUsage| usage_line_drill(u))
        } else {
            concat_map(usages_of_kind(usages@, kind@), |u: SchemaUsage| usage_line(u))
        },
        r.1 == usages_of_kind(usages@, kind@).len(),
{
    let mut out = String::new();
    let mut n: usize = 0;
    let mut i: usize = 0;
    while i < usages.len()
        invariant
            i <= usages.len(),
            n == usages_of_kind(usages@.take(i as int), kind@).len(),
            n <= i,
            out@ == if drill {
                concat_map(usages_of_kind(usages@.take(i as int), kind@), |u: SchemaUsage| usage_line_drill(u))
            } else {
                concat_map(usages_of_kind(usages@.take(i as int), kind@), |u: SchemaUsage| usage_line(u))
            },
        decreases usages.len() - i,
    {
        proof { assert(usages@.take(i + 1).drop_last() =~= usages@.take(i as int)); }
        let ghost before = usages_of_kind(usages@.take(i as int), kind@);
        if str_eq(usages[i].usage_type.as_str(), kind) {
            let line = usage_line_exec(&usages[i], drill);
            push_str(&mut out, line.as_str());
            proof {
                crate::strutil::lemma_concat_map_push(before, usages@[i as int], |u: SchemaUsage| usage_line_drill(u));
                crate::strutil::lemma_concat_map_push(before, usages@[i as int], |u: SchemaUsage| usage_line(u));
            }
            n = n + 1;
        }
        i = i + 1;
    }
    assert(usages@.take(usages@.len() as int) =~= usages@);
    (out, n)
}

/// Renders which endpoints use a schema, grouped by request body, response
/// and parameter.
pub fn render_schema_usage(schema_name: &str, usages: &[SchemaUsage], _is_tty: bool) -> (r: String)
    ensures
        r@ == spec_render_schema_usage(schema_name@, usages@),
{
    let mut out = owned("Schema: ");
    push_san(&mut out, schema_name);
    push_str(&mut out, "\n");
    push_str(&mut out, "\n");
    if usages.len() == 0 {
        push_str(&mut out, "  Not found in any endpoint request bodies, responses, or parameters.\n");
        return out;
    }
    let mut rest = owned("Used by ");
    push_usize(&mut rest, usages.len());
    push_str(&mut rest, " endpoint(s):\n");
    push_str(&mut rest, "\n");
    let (rb, nrb) = usage_lines_of_kind(usages, "request body", true);
    let mut sec = String::new();
    if nrb > 0 {
        sec = owned("  In request body:\n");
        push_str(&mut sec, rb.as_str());
        push_str(&mut sec, "\n");
    } else {
        assert(sec@ =~= usage_section("  In request body:\n"@, usages_of_kind(usages@, "request body"@)));
    }
    push_str(&mut rest, sec.as_str());
    let (rs, nrs) = usage_lines_of_kind(usages, "response", true);
    let mut sec2 = String::new();
    if nrs > 0 {
        sec2 = owned("  In response:\n");
        push_str(&mut sec2, rs.as_str());
        push_str(&mut sec2, "\n");
    } else {
        assert(sec2@ =~= usage_section("  In response:\n"@, usages_of_kind(usages@, "response"@)));
    }
    push_str(&mut rest, sec2.as_str());
    let (ps, nps) = usage_lines_of_kind(usages, "parameter", false);
    let mut sec3 = String::new();
    if nps > 0 {
        sec3 = owned("  In parameter:\n");
        push_str(&mut sec3, ps.as_str());
    } else {
        assert(sec3@ =~= only_if(usages_of_kind(usages@, "parameter"@).len() > 0,
            "  In parameter:\n"@ + concat_map(usages_of_kind(usages@, "parameter"@), |u: SchemaUsage| usage_line(u))));
    }
    push_str(&mut rest, sec3.as_str());
    push_str(&mut out, rest.as_str());
    out
}


// ───────────────────────── auth ─────────────────────────

pub open spec fn opt_labeled(label: Seq<char>, o: Option<String>) -> Seq<char> {
    match o {
        Some(u) => label + san(u@) + "\n"@,
        None => seq![],
    }
}

pub open spec fn scope_line(sc: OAuth2ScopeInfo) -> Seq<char> {
    "        "@ + san(sc.name@) + " — "@ + san(sc.description@) + "\n"@
}

pub open spec fn flow_block(f: OAuth2FlowInfo) -> Seq<char> {
    "\n    Flow: "@ + san(f.flow_type@) + "\n"@
        + opt_labeled("      Authorization URL: "@, f.authorization_url)
        + opt_labeled("      Token URL: "@, f.token_url)
        + opt_labeled("      Refresh URL: "@, f.refresh_url)
        + only_if(f.scopes@.len() > 0,
            "      Scopes:\n"@ + concat_map(f.scopes@, |sc: OAuth2ScopeInfo| scope_line(sc)))
}

pub open spec fn scheme_block(sc: SecuritySchemeInfo, total: usize) -> Seq<char> {
    "\n  "@ + san(sc.name@) + " ("@ + uppercase(san(sc.scheme_type@)) + ")\n"@
        + "    Scheme: "@ + san(sc.detail@) + "\n"@
        + opt_labeled("    Description: "@, sc.description)
        + concat_map(sc.oauth2_flows@, |f: OAuth2FlowInfo| flow_block(f))
        + "\n    Used by: "@ + decimal(sc.usage_count as nat) + " operation(s)"@
        + (if total > 0 && sc.usage_count == total { " (all endpoints)"@ } else { ""@ }) + "\n"@
}

pub open spec fn scheme_search_line(sc: SecuritySchemeInfo) -> Seq<char> {
    "  phyll search "@ + san(sc.name@) + "    Find endpoints using this scheme\n"@
}

pub open spec fn spec_render_auth(model: AuthModel, is_tty: bool) -> Seq<char> {
    "Authentication:\n"@ + (if model.schemes@.len() == 0 {
        "\n  (none configured)\n"@
    } else {
        concat_map(model.schemes@, |sc: SecuritySchemeInfo| scheme_block(sc, model.total_operations))
    }) + only_if(is_tty,
        "\nDrill deeper:\n"@ + concat_map(model.schemes@, |sc: SecuritySchemeInfo| scheme_search_line(sc)))
}

fn opt_labeled_exec(label: &str, o: &Option<String>) -> (out: String)
    ensures
        out@ == opt_labeled(label@, *o),
{
    match o {
        Some(u) => {
            let mut out = owned(label);
            push_san(&mut out, u.as_str());
            push_str(&mut out, "\n");
            out
        },
        None => {
            let out = String::new();
            assert(out@ =~= opt_labeled(label@, *o));
            out
        },
    }
}

fn flow_block_exec(f: &OAuth2FlowInfo) -> (out: String)
    ensures
        out@ == flow_block(*f),
{
    let mut out = owned("\n    Flow: ");
    push_san(&mut out, f.flow_type.as_str());
    push_str(&mut out, "\n");
    let a = opt_labeled_exec("      Authorization URL: ", &f.authorization_url);
    push_str(&mut out, a.as_str());
    let t = opt_labeled_exec("      Token URL: ", &f.token_url);
    push_str(&mut out, t.as_str());
    let r = opt_labeled_exec("      Refresh URL: ", &f.refresh_url);
    push_str(&mut out, r.as_str());
    let mut sc = String::new();
    if f.scopes.len() > 0 {
        sc = owned("      Scopes:\n");
        let ghost p = sc@;
        let mut i: usize = 0;
        while i < f.scopes.len()
            invariant
                i <= f.scopes.len(),
                sc@ == p + concat_map(f.scopes@.take(i as int), |s: OAuth2ScopeInfo| scope_line(s)),
            decreases f.scopes.len() - i,
        {
            proof { lemma_concat_map_take(f.scopes@, i as int, |s: OAuth2ScopeInfo| scope_line(s)); }
            let mut line = owned("        ");
            push_san(&mut line, f.scopes[i].name.as_str());
            push_str(&mut line, " — ");
            push_san(&mut line, f.scopes[i].description.as_str());
            push_str(&mut line, "\n");
            push_str(&mut sc, line.as_str());
            i = i + 1;
        }
        assert(f.scopes@.take(f.scopes@.len() as int) =~= f.scopes@);
    }
    assert(sc@ =~= only_if(f.scopes@.len() > 0,
        "      Scopes:\n"@ + concat_map(f.scopes@, |s: OAuth2ScopeInfo| scope_line(s))));
    push_str(&mut out, sc.as_str());
    out
}

fn scheme_block_exec(sc: &SecuritySchemeInfo, total: usize) -> (out: String)
    ensures
        out@ == scheme_block(*sc, total),
{
    let mut out = owned("\n  ");
    push_san(&mut out, sc.name.as_str());
    push_str(&mut out, " (");
    let st = sanitize(sc.scheme_type.as_str());
    let up = str_to_uppercase(st.as_str());
    push_str(&mut out, up.as_str());
    push_str(&mut out, ")\n");
    push_str(&mut out, "    Scheme: ");
    push_san(&mut out, sc.detail.as_str());
    push_str(&mut out, "\n");
    let d = opt_labeled_exec("    Description: ", &sc.description);
    push_str(&mut out, d.as_str());
    let mut flows = String::new();
    let mut i: usize = 0;
    while i < sc.oauth2_flows.len()
        invariant
            i <= sc.oauth2_flows.len(),
            flows@ == concat_map(sc.oauth2_flows@.take(i as int), |f: OAuth2FlowInfo| flow_block(f)),
        decreases sc.oauth2_flows.len() - i,
    {
        proof { lemma_concat_map_take(sc.oauth2_flows@, i as int, |f: OAuth2FlowInfo| flow_block(f)); }
        let b = flow_block_exec(&sc.oauth2_flows[i]);
        push_str(&mut flows, b.as_str());
        i = i + 1;
    }
    assert(sc.oauth2_flows@.take(sc.oauth2_flows@.len() as int) =~= sc.oauth2_flows@);
    push_str(&mut out, flows.as_str());
    push_str(&mut out, "\n    Used by: ");
    push_usize(&mut out, sc.usage_count);
    push_str(&mut out, " operation(s)");
    if total > 0 && sc.usage_count == total {
        push_str(&mut out, " (all endpoints)");
    } else {
        push_str(&mut out, "");
    }
    push_str(&mut out, "\n");
    out
}

/// Renders the security schemes, their OAuth2 flows and scopes, and how many
/// operations use each.
pub fn render_auth(model: &AuthModel, _bin_name: &str, is_tty: bool) -> (r: String)
    ensures
        r@ == spec_render_auth(*model, is_tty),
{
    let mut out = owned("Authentication:\n");
    let mut body = String::new();
    if model.schemes.len() == 0 {
        body = owned("\n  (none configured)\n");
    } else {
        let mut i: usize = 0;
        while i < model.schemes.len()
            invariant
                i <= model.schemes.len(),
                body@ == concat_map(model.schemes@.take(i as int),
                    |sc: SecuritySchemeInfo| scheme_block(sc, model.total_operations)),
            decreases model.schemes.len() - i,
        {
            proof {
                lemma_concat_map_take(model.schemes@, i as int,
                    |sc: SecuritySchemeInfo| scheme_block(sc, model.total_operations));
            }
            let b = scheme_block_exec(&model.schemes[i], model.total_operations);
            push_str(&mut body, b.as_str());
            i = i + 1;
        }
        assert(model.schemes@.take(model.schemes@.len() as int) =~= model.schemes@);
    }
    push_str(&mut out, body.as_str());
    let mut drill = String::new();
    if is_tty {
        drill = owned("\nDrill deeper:\n");
        let ghost p = drill@;
        let mut i: usize = 0;
        while i < model.schemes.len()
            invariant
                i <= model.schemes.len(),
                drill@ == p + concat_map(model.schemes@.take(i as int), |sc: SecuritySchemeInfo| scheme_search_line(sc)),
            decreases model.schemes.len() - i,
        {
            proof { lemma_concat_map_take(model.schemes@, i as int, |sc: SecuritySchemeInfo| scheme_search_line(sc)); }
            let mut line = owned("  phyll search ");
            push_san(&mut line, model.schemes[i].name.as_str());
            push_str(&mut line, "    Find endpoints using this scheme\n");
            push_str(&mut drill, line.as_str());
            i = i + 1;
        }
        assert(model.schemes@.take(model.schemes@.len() as int) =~= model.schemes@);
    }
    assert(drill@ =~= only_if(is_tty,
        "\nDrill deeper:\n"@ + concat_map(model.schemes@, |sc: SecuritySchemeInfo| scheme_search_line(sc))));
    push_str(&mut out, drill.as_str());
    out
}

// ───────────────────────── resources ─────────────────────────

pub open spec fn group_marker(g: ResourceGroup) -> Seq<char> {
    if g.is_deprecated {
        "[DEPRECATED]"@
    } else if g.is_alpha {
        "[ALPHA]     "@
    } else {
        "            "@
    }
}

pub open spec fn group_line(g: ResourceGroup, w: nat) -> Seq<char> {
    "  "@ + pad_right(san(g.slug@), w) + "  "@ + ("("@ + pad_left(decimal(g.endpoints@.len()), 3) + ")"@)
        + "  "@ + group_marker(g) + "  "@ + san(opt_text(g.description)) + "\n"@
}

pub open spec fn max_slug_len(gs: Seq<ResourceGroup>) -> nat {
    max_of(gs, |g: ResourceGroup| len_bytes(g.slug@))
}

pub open spec fn spec_render_resource_list(gs: Seq<ResourceGroup>, is_tty: bool) -> Seq<char> {
    "Resources:\n"@ + concat_map(gs, |g: ResourceGroup| group_line(g, max_slug_len(gs)))
        + only_if(is_tty, "\nDrill deeper:\n"@ + "  phyll --resources <name>\n"@)
}

fn max_slug_exec(groups: &[ResourceGroup]) -> (m: usize)
    ensures
        m == max_slug_len(groups@),
{
    let mut m: usize = 0;
    let mut i: usize = 0;
    while i < groups.len()
        invariant
            i <= groups.len(),
            m == max_of(groups@.take(i as int), |g: ResourceGroup| len_bytes(g.slug@)),
        decreases groups.len() - i,
    {
        proof { lemma_max_of_take(groups@, i as int, |g: ResourceGroup| len_bytes(g.slug@)); }
        let l = str_len(groups[i].slug.as_str());
        if l > m {
            m = l;
        }
        i = i + 1;
    }
    assert(groups@.take(groups@.len() as int) =~= groups@);
    m
}

/// Renders the resource groups with endpoint counts and status markers.
pub fn render_resource_list(groups: &[ResourceGroup], _bin_name: &str, is_tty: bool) -> (r: String)
    ensures
        r@ == spec_render_resource_list(groups@, is_tty),
{
    let mut out = owned("Resources:\n");
    let w = max_slug_exec(groups);
    let mut body = String::new();
    let mut i: usize = 0;
    while i < groups.len()
        invariant
            i <= groups.len(),
            w == max_slug_len(groups@),
            body@ == concat_map(groups@.take(i as int), |g: ResourceGroup| group_line(g, max_slug_len(groups@))),
        decreases groups.len() - i,
    {
        proof { lemma_concat_map_take(groups@, i as int, |g: ResourceGroup| group_line(g, max_slug_len(groups@))); }
        let g = &groups[i];
        let slug = sanitize(g.slug.as_str());
        let mut line = owned("  ");
        push_padded(&mut line, slug.as_str(), w);
        push_str(&mut line, "  ");
        let mut count = owned("(");
        let num = crate::strutil::usize_to_string(g.endpoints.len());
        push_padded_left(&mut count, num.as_str(), 3);
        push_str(&mut count, ")");
        push_str(&mut line, count.as_str());
        push_str(&mut line, "  ");
        if g.is_deprecated {
            push_str(&mut line, "[DEPRECATED]");
        } else if g.is_alpha {
            push_str(&mut line, "[ALPHA]     ");
        } else {
            push_str(&mut line, "            ");
        }
        push_str(&mut line, "  ");
        push_san_opt(&mut line, &g.description);
        push_str(&mut line, "\n");
        push_str(&mut body, line.as_str());
        i = i + 1;
    }
    assert(groups@.take(groups@.len() as int) =~= groups@);
    push_str(&mut out, body.as_str());
    let d = drill_hint(is_tty, "  phyll --resources <name>\n");
    push_str(&mut out, d.as_str());
    out
}

pub open spec fn endpoint_marker(e: Endpoint) -> Seq<char> {
    if e.is_deprecated {
        " [DEPRECATED]"@
    } else if e.is_alpha {
        " [ALPHA]"@
    } else {
        ""@
    }
}

pub open spec fn endpoint_line(e: Endpoint, w: nat) -> Seq<char> {
    "  "@ + pad_right(san(e.method@), 7) + " "@ + pad_right(san(e.path@), w) + "  "@
        + san(opt_text(e.summary)) + endpoint_marker(e) + "\n"@
}

pub open spec fn endpoint_drill_line(e: Endpoint) -> Seq<char> {
    "  phyll --endpoint "@ + san(e.method@) + " "@ + san(e.path@) + "\n"@
}

pub open spec fn max_path_len(es: Seq<Endpoint>) -> nat {
    max_of(es, |e: Endpoint| len_bytes(e.path@))
}

pub open spec fn spec_render_resource_detail(g: ResourceGroup, is_tty: bool) -> Seq<char> {
    "Resource: "@ + san(g.display_name@) + "\n"@ + opt_labeled("Description: "@, g.description)
        + "\nEndpoints:\n"@
        + concat_map(g.endpoints@, |e: Endpoint| endpoint_line(e, max_path_len(g.endpoints@)))
        + only_if(is_tty, "\nDrill deeper:\n"@ + concat_map(g.endpoints@, |e: Endpoint| endpoint_drill_line(e)))
}

/// Renders one resource group: its endpoints with summaries and markers.
pub fn render_resource_detail(group: &ResourceGroup, _bin_name: &str, is_tty: bool) -> (r: String)
    ensures
        r@ == spec_render_resource_detail(*group, is_tty),
{
    let mut out = owned("Resource: ");
    push_san(&mut out, group.display_name.as_str());
    push_str(&mut out, "\n");
    let d = opt_labeled_exec("Description: ", &group.description);
    push_str(&mut out, d.as_str());
    push_str(&mut out, "\nEndpoints:\n");
    let mut w: usize = 0;
    let mut i: usize = 0;
    while i < group.endpoints.len()
        invariant
            i <= group.endpoints.len(),
            w == max_of(group.endpoints@.take(i as int), |e: Endpoint| len_bytes(e.path@)),
        decreases group.endpoints.len() - i,
    {
        proof { lemma_max_of_take(group.endpoints@, i as int, |e: Endpoint| len_bytes(e.path@)); }
        let l = str_len(group.endpoints[i].path.as_str());
        if l > w {
            w = l;
        }
        i = i + 1;
    }
    assert(group.endpoints@.take(group.endpoints@.len() as int) =~= group.endpoints@);
    let mut body = String::new();
    let mut drill = String::new();
    let mut i: usize = 0;
    while i < group.endpoints.len()
        invariant
            i <= group.endpoints.len(),
            w == max_path_len(group.endpoints@),
            body@ == concat_map(group.endpoints@.take(i as int), |e: Endpoint| endpoint_line(e, max_path_len(group.endpoints@))),
            drill@ == concat_map(group.endpoints@.take(i as int), |e: Endpoint| endpoint_drill_line(e)),
        decreases group.endpoints.len() - i,
    {
        proof {
            lemma_concat_map_take(group.endpoints@, i as int, |e: Endpoint| endpoint_line(e, max_path_len(group.endpoints@)));
            lemma_concat_map_take(group.endpoints@, i as int, |e: Endpoint| endpoint_drill_line(e));
        }
        let e = &group.endpoints[i];
        let m = sanitize(e.method.as_str());
        let p = sanitize(e.path.as_str());
        let mut line = owned("  ");
        push_padded(&mut line, m.as_str(), 7);
        push_str(&mut line, " ");
        push_padded(&mut line, p.as_str(), w);
        push_str(&mut line, "  ");
        push_san_opt(&mut line, &e.summary);
        if e.is_deprecated {
            push_str(&mut line, " [DEPRECATED]");
        } else if e.is_alpha {
            push_str(&mut line, " [ALPHA]");
        } else {
            push_str(&mut line, "");
        }
        push_str(&mut line, "\n");
        push_str(&mut body, line.as_str());
        let mut dl = owned("  phyll --endpoint ");
        push_str(&mut dl, m.as_str());
        push_str(&mut dl, " ");
        push_str(&mut dl, p.as_str());
        push_str(&mut dl, "\n");
        push_str(&mut drill, dl.as_str());
        i = i + 1;
    }
    assert(group.endpoints@.take(group.endpoints@.len() as int) =~= group.endpoints@);
    push_str(&mut out, body.as_str());
    let mut dr = String::new();
    if is_tty {
        dr = owned("\nDrill deeper:\n");
        push_str(&mut dr, drill.as_str());
    }
    assert(dr@ =~= only_if(is_tty, "\nDrill deeper:\n"@ + concat_map(group.endpoints@, |e: Endpoint| endpoint_drill_line(e))));
    push_str(&mut out, dr.as_str());
    out
}

// ───────────────────────── generated examples ─────────────────────────

/// A generated example under its heading; `example_json` is the example as
/// pretty-printed JSON text.
pub open spec fn spec_render_example(schema_name: Seq<char>, example_json: Seq<char>) -> Seq<char> {
    "Example ("@ + san(schema_name) + ", required fields, auto-generated):\n"@ + example_json + "\n"@
}

/// Renders a generated example: a heading naming the schema, then the
/// example's JSON text (as the caller printed it) and a newline.
pub fn render_example(schema_name: &str, example_json: &str, _is_tty: bool) -> (r: String)
    ensures
        r@ == spec_render_example(schema_name@, example_json@),
{
    let mut out = owned("Example (");
    push_san(&mut out, schema_name);
    push_str(&mut out, ", required fields, auto-generated):\n");
    push_str(&mut out, example_json);
    push_str(&mut out, "\n");
    out
}

} // verus!
