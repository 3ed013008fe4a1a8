//! The rules of the command line: output format, terminal styling, hints
//! for removed subcommands, where `--set-doc` writes, JSON pointer and
//! search term checks, and the wording of not-found errors.
use vstd::prelude::*;
use crate::strutil::{char_is_whitespace, chars_to_string, is_whitespace, push_str, to_chars};
use crate::models::openapi::{push_text, texts};
use crate::render::sanitize::{owned, str_eq};
use crate::commands::init::opt_view;
use crate::models::json::JsonValue;

verus! {

/// JSON where asked, text where asked, else JSON when output is not a
/// terminal.
pub fn output_is_json(json_flag: bool, text_flag: bool, stdout_is_terminal: bool) -> (r: bool)
    ensures
        r == (json_flag || (!text_flag && !stdout_is_terminal)),
{
    if json_flag {
        true
    } else if text_flag {
        false
    } else {
        !stdout_is_terminal
    }
}

/// Styled terminal output: a terminal, `NO_COLOR` unset, `TERM` not
/// `dumb`, `CLICOLOR` not `0`.
pub fn styled_output(stdout_is_terminal: bool, no_color_set: bool, term: Option<&str>, clicolor: Option<&str>) -> (r: bool)
    ensures
        r == (stdout_is_terminal && !no_color_set
            && !(match term { Some(t) => t@ == "dumb"@, None => false })
            && !(match clicolor { Some(c) => c@ == "0"@, None => false })),
{
    let dumb = match term {
        Some(t) => str_eq(t, "dumb"),
        None => false,
    };
    let off = match clicolor {
        Some(c) => str_eq(c, "0"),
        None => false,
    };
    stdout_is_terminal && !no_color_set && !dumb && !off
}

/// The hint for a removed subcommand name given where a document goes.
pub open spec fn spec_migration_hint(doc: Seq<char>, bin: Seq<char>) -> Option<Seq<char>> {
    if doc == "resources"@ || doc == "endpoints"@ {
        Some("Subcommand '"@ + doc + "' was removed in v2.0. Use: "@ + bin + " --resources [name]"@)
    } else if doc == "schemas"@ {
        Some("Subcommand 'schemas' was removed in v2.0. Use: "@ + bin + " --schemas [name]"@)
    } else if doc == "auth"@ {
        Some("Subcommand 'auth' was removed in v2.0. Use: "@ + bin + " --auth"@)
    } else if doc == "callbacks"@ {
        Some("Subcommand 'callbacks' was removed in v2.0. Use: "@ + bin + " --callbacks [name]"@)
    } else {
        None
    }
}

fn cat3(a: &str, b: &str, c: &str) -> (r: String)
    ensures
        r@ == a@ + b@ + c@,
{
    let mut s = owned(a);
    push_str(&mut s, b);
    push_str(&mut s, c);
    s
}

/// The hint for a removed subcommand name, where `doc` is one.
pub fn migration_hint(doc: &str, bin: &str) -> (r: Option<String>)
    ensures
        opt_view(r) == spec_migration_hint(doc@, bin@),
{
    if str_eq(doc, "resources") || str_eq(doc, "endpoints") {
        let mut s = cat3("Subcommand '", doc, "' was removed in v2.0. Use: ");
        push_str(&mut s, bin);
        push_str(&mut s, " --resources [name]");
        Some(s)
    } else if str_eq(doc, "schemas") {
        Some(cat3("Subcommand 'schemas' was removed in v2.0. Use: ", bin, " --schemas [name]"))
    } else if str_eq(doc, "auth") {
        Some(cat3("Subcommand 'auth' was removed in v2.0. Use: ", bin, " --auth"))
    } else if str_eq(doc, "callbacks") {
        Some(cat3("Subcommand 'callbacks' was removed in v2.0. Use: ", bin, " --callbacks [name]"))
    } else {
        None
    }
}

/// Whether `--set-doc` writes to the user configuration: when asked with
/// `--global`; else to the scope that has the nickname, the project's
/// first; else to the user's where there is no project.
pub fn set_doc_user_scope(global: bool, in_project: bool, in_user: bool, has_project: bool) -> (r: bool)
    ensures
        r == (global || (!in_project && (in_user || !has_project))),
{
    if global {
        true
    } else if in_project {
        false
    } else if in_user {
        true
    } else {
        !has_project
    }
}

/// A JSON pointer as `--for` takes it: one leading `#` dropped; it must
/// then be empty or start with `/`.
pub open spec fn spec_pointer(raw: Seq<char>) -> Result<Seq<char>, Seq<char>> {
    let p = if raw.len() > 0 && raw[0] == '#' { raw.drop_first() } else { raw };
    if p.len() == 0 || p[0] == '/' {
        Ok(p)
    } else {
        Err("Invalid JSON Pointer '"@ + raw + "': must start with '/'"@)
    }
}

pub fn normalize_pointer(raw: &str) -> (r: Result<String, String>)
    ensures
        match r {
            Ok(p) => spec_pointer(raw@) == Ok::<Seq<char>, Seq<char>>(p@),
            Err(e) => spec_pointer(raw@) == Err::<Seq<char>, Seq<char>>(e@),
        },
{
    let v = to_chars(raw);
    let mut out: Vec<char> = Vec::new();
    let start: usize = if v.len() > 0 && v[0] == '#' { 1 } else { 0 };
    let mut i: usize = start;
    while i < v.len()
        invariant
            start <= i <= v.len(),
            out@ == v@.subrange(start as int, i as int),
        decreases v.len() - i,
    {
        out.push(v[i]);
        assert(v@.subrange(start as int, i + 1) =~= v@.subrange(start as int, i as int).push(v@[i as int]));
        i = i + 1;
    }
    assert(v@.drop_first() =~= v@.subrange(1, v@.len() as int));
    assert(v@.subrange(0, v@.len() as int) =~= v@);
    if out.len() == 0 || out[0] == '/' {
        Ok(chars_to_string(&out))
    } else {
        Err(cat3("Invalid JSON Pointer '", raw, "': must start with '/'"))
    }
}

/// `s` without white space at either end.
pub open spec fn trim_start_from(s: Seq<char>, i: int) -> int
    decreases s.len() - i,
{
    if i >= s.len() || !is_whitespace(s[i]) { i } else { trim_start_from(s, i + 1) }
}

pub open spec fn trim_end_from(s: Seq<char>, lo: int, j: int) -> int
    decreases j - lo,
{
    if j <= lo || !is_whitespace(s[j - 1]) { j } else { trim_end_from(s, lo, j - 1) }
}

pub open spec fn trimmed(s: Seq<char>) -> Seq<char> {
    let a = trim_start_from(s, 0);
    s.subrange(a, trim_end_from(s, a, s.len() as int))
}

proof fn lemma_trim_bounds(s: Seq<char>, i: int)
    requires
        0 <= i <= s.len(),
    ensures
        i <= trim_start_from(s, i) <= s.len(),
    decreases s.len() - i,
{
    if i < s.len() && is_whitespace(s[i]) {
        lemma_trim_bounds(s, i + 1);
    }
}

proof fn lemma_trim_end_bounds(s: Seq<char>, lo: int, j: int)
    requires
        0 <= lo <= j <= s.len(),
    ensures
        lo <= trim_end_from(s, lo, j) <= j,
    decreases j - lo,
{
    if j > lo && is_whitespace(s[j - 1]) {
        lemma_trim_end_bounds(s, lo, j - 1);
    }
}

/// The search term without surrounding white space; an error where
/// nothing is left, which on text output also says how to list items.
pub open spec fn spec_search_term(term: Seq<char>, json: bool, bin: Seq<char>) -> Result<Seq<char>, Seq<char>> {
    if trimmed(term).len() == 0 {
        Err("Please provide a search term."@ + if json {
            seq![]
        } else {
            "\nUse '"@ + bin + " --resources' or '"@ + bin + " --schemas' to list all items."@
        })
    } else {
        Ok(trimmed(term))
    }
}

pub fn search_term(term: &str, json: bool, bin: &str) -> (r: Result<String, String>)
    ensures
        match r {
            Ok(t) => spec_search_term(term@, json, bin@) == Ok::<Seq<char>, Seq<char>>(t@),
            Err(e) => spec_search_term(term@, json, bin@) == Err::<Seq<char>, Seq<char>>(e@),
        },
{
    let v = to_chars(term);
    let mut a: usize = 0;
    while a < v.len() && char_is_whitespace(v[a])
        invariant
            a <= v.len(),
            v@ == term@,
            trim_start_from(v@, 0) == trim_start_from(v@, a as int),
        decreases v.len() - a,
    {
        a = a + 1;
    }
    let mut b: usize = v.len();
    while b > a && char_is_whitespace(v[b - 1])
        invariant
            a <= b <= v.len(),
            v@ == term@,
            trim_start_from(v@, 0) == a,
            trim_end_from(v@, a as int, v.len() as int) == trim_end_from(v@, a as int, b as int),
        decreases b - a,
    {
        b = b - 1;
    }
    let mut out: Vec<char> = Vec::new();
    let mut i: usize = a;
    while i < b
        invariant
            a <= i <= b <= v.len(),
            out@ == v@.subrange(a as int, i as int),
        decreases b - i,
    {
        out.push(v[i]);
        assert(v@.subrange(a as int, i + 1) =~= v@.subrange(a as int, i as int).push(v@[i as int]));
        i = i + 1;
    }
    assert(trim_end_from(v@, a as int, b as int) == b);
    assert(trimmed(term@) =~= out@);
    if out.len() == 0 {
        let mut msg = owned("Please provide a search term.");
        if !json {
            push_str(&mut msg, "\nUse '");
            push_str(&mut msg, bin);
            push_str(&mut msg, " --resources' or '");
            push_str(&mut msg, bin);
            push_str(&mut msg, " --schemas' to list all items.");
            assert(msg@ =~= "Please provide a search term."@
                + ("\nUse '"@ + bin@ + " --resources' or '"@ + bin@ + " --schemas' to list all items."@));
        } else {
            assert(msg@ =~= msg@ + Seq::<char>::empty());
        }
        Err(msg)
    } else {
        Ok(chars_to_string(&out))
    }
}

/// A command that names a close match: `bin --flag name`.
pub open spec fn suggestion(bin: Seq<char>, flag: Seq<char>, name: Seq<char>) -> Seq<char> {
    bin + " --"@ + flag + " "@ + name
}

/// The commands for the close matches found, in order.
pub fn suggestion_commands(bin: &str, flag: &str, names: &Vec<String>) -> (r: Vec<String>)
    ensures
        texts(r@) == names@.map_values(|n: String| suggestion(bin@, flag@, n@)),
{
    let mut r: Vec<String> = Vec::new();
    let mut i: usize = 0;
    while i < names.len()
        invariant
            i <= names.len(),
            texts(r@) == names@.take(i as int).map_values(|n: String| suggestion(bin@, flag@, n@)),
        decreases names.len() - i,
    {
        let mut c = cat3(bin, " --", flag);
        push_str(&mut c, " ");
        push_str(&mut c, names[i].as_str());
        push_text(&mut r, c);
        assert(names@.take(i + 1).map_values(|n: String| suggestion(bin@, flag@, n@))
            =~= names@.take(i as int).map_values(|n: String| suggestion(bin@, flag@, n@)).push(suggestion(bin@, flag@, names@[i as int]@)));
        i = i + 1;
    }
    assert(names@.take(names@.len() as int) =~= names@);
    r
}

/// The text of a not-found error: the message, then the suggested
/// commands under "Did you mean:" where there are some.
pub open spec fn spec_not_found_text(msg: Seq<char>, cmds: Seq<Seq<char>>) -> Seq<char> {
    if cmds.len() == 0 {
        msg
    } else {
        msg + "\nDid you mean:"@ + lines_of(cmds)
    }
}

pub open spec fn lines_of(cmds: Seq<Seq<char>>) -> Seq<char>
    decreases cmds.len(),
{
    if cmds.len() == 0 {
        seq![]
    } else {
        lines_of(cmds.drop_last()) + "\n  "@ + cmds.last()
    }
}

pub fn not_found_text(msg: &str, cmds: &Vec<String>) -> (r: String)
    ensures
        r@ == spec_not_found_text(msg@, texts(cmds@)),
{
    let mut out = owned(msg);
    if cmds.len() == 0 {
        return out;
    }
    push_str(&mut out, "\nDid you mean:");
    let ghost head = out@;
    let mut i: usize = 0;
    while i < cmds.len()
        invariant
            i <= cmds.len(),
            out@ == head + lines_of(texts(cmds@).take(i as int)),
        decreases cmds.len() - i,
    {
        push_str(&mut out, "\n  ");
        push_str(&mut out, cmds[i].as_str());
        assert(texts(cmds@).take(i + 1).drop_last() =~= texts(cmds@).take(i as int));
        i = i + 1;
    }
    assert(texts(cmds@).take(cmds@.len() as int) =~= texts(cmds@));
    out
}

/// The message for a name that is not there: `<Kind> '<name>' not found.`
pub fn not_found_message(kind: &str, name: &str) -> (r: String)
    ensures
        r@ == kind@ + " '"@ + name@ + "' not found."@,
{
    let mut s = cat3(kind, " '", name);
    push_str(&mut s, "' not found.");
    s
}

/// The JSON output when several views are asked for at once: nothing for
/// none, one view's value as it is, or several under their names (in the
/// order given) in one object.
pub fn merge_view_outputs(parts: Vec<(String, JsonValue)>) -> (r: Option<JsonValue>)
    ensures
        parts@.len() == 0 ==> r is None,
        parts@.len() == 1 ==> r == Some(parts@[0].1),
        parts@.len() > 1 ==> r == Some(JsonValue::Object(parts)),
{
    if parts.len() == 0 {
        None
    } else if parts.len() == 1 {
        let mut p = parts;
        let (_, v) = p.remove(0);
        Some(v)
    } else {
        Some(JsonValue::Object(parts))
    }
}

} // verus!
