//! Field tables: one aligned line per field, with the fields of an expanded
//! nested schema listed below their parent, two spaces further in.
use vstd::prelude::*;
use crate::strutil::{
    char_count, join, join_strings, len_bytes, lemma_max_of_take, max_of, pad_right, push_padded,
    push_str, str_len,
};
use crate::models::resource::Field;
use crate::render::sanitize::{join_san, only_if, opt_text, owned, push_join_san, push_san, push_san_opt, san};

verus! {

// ───────────────────────── spec ─────────────────────────

/// The flags of a field that are set, in their fixed order.
pub open spec fn flag_words(f: Field) -> Seq<Seq<char>> {
    (if f.required { seq!["required"@] } else { seq![] })
        + (if f.optional { seq!["optional"@] } else { seq![] })
        + (if f.nullable { seq!["nullable"@] } else { seq![] })
        + (if f.read_only { seq!["read-only"@] } else { seq![] })
        + (if f.write_only { seq!["write-only"@] } else { seq![] })
        + (if f.deprecated { seq!["DEPRECATED"@] } else { seq![] })
}

/// `(flag, flag, ...)`, or nothing when no flag is set.
pub open spec fn flag_text(f: Field) -> Seq<char> {
    if flag_words(f).len() == 0 {
        seq![]
    } else {
        "("@ + join(flag_words(f), ", "@) + ")"@
    }
}

/// Width of the flag column: the longest flag text of the fields.
pub open spec fn max_flag_width(fs: Seq<Field>) -> nat {
    max_of(fs, |f: Field| flag_text(f).len())
}

/// Width of the name column: the longest name, in bytes.
pub open spec fn max_name_width(fs: Seq<Field>) -> nat {
    max_of(fs, |f: Field| len_bytes(f.name@))
}

/// Width of the type column: the longest type, in bytes.
pub open spec fn max_type_width(fs: Seq<Field>) -> nat {
    max_of(fs, |f: Field| len_bytes(f.type_display@))
}

/// Two spaces and the constraints separated by spaces, or nothing.
pub open spec fn constraints_text(cs: Seq<String>) -> Seq<char> {
    only_if(cs.len() > 0, "  "@ + join(cs.map_values(|c: String| c@), " "@))
}

/// `  Enum: [a, b]` with sanitized values, or nothing.
pub open spec fn enum_text(vs: Seq<String>) -> Seq<char> {
    only_if(vs.len() > 0, "  Enum: ["@ + join_san(vs, ", "@) + "]"@)
}

/// The aligned line of a field without nested fields.
pub open spec fn field_row(f: Field, prefix: Seq<char>, nw: nat, tw: nat, fw: nat) -> Seq<char> {
    prefix + pad_right(san(f.name@), nw) + "  "@ + pad_right(san(f.type_display@), tw) + "  "@
        + pad_right(flag_text(f), fw) + "  "@ + san(opt_text(f.description))
        + constraints_text(f.constraints@) + enum_text(f.enum_values@) + "\n"@
}

/// The lines of one field: its row, or, when it has nested fields, a
/// `name  type:` heading followed by their table.
pub open spec fn field_lines(f: Field, prefix: Seq<char>, nw: nat, tw: nat, fw: nat) -> Seq<char>
    decreases f, 0nat,
{
    if f.nested_fields@.len() > 0 {
        prefix + pad_right(san(f.name@), nw) + "  "@ + san(f.type_display@) + ":\n"@
            + field_table(f.nested_fields@, prefix + "  "@)
    } else {
        field_row(f, prefix, nw, tw, fw)
    }
}

/// The lines of the fields in order, with the given column widths.
pub open spec fn field_rows(fs: Seq<Field>, prefix: Seq<char>, nw: nat, tw: nat, fw: nat) -> Seq<char>
    decreases fs, 0nat,
{
    if fs.len() == 0 {
        seq![]
    } else {
        field_rows(fs.subrange(0, fs.len() - 1), prefix, nw, tw, fw)
            + field_lines(fs[fs.len() - 1], prefix, nw, tw, fw)
    }
}

/// The table of the fields, each line starting with `prefix`, columns as
/// wide as their longest entry.
pub open spec fn field_table(fs: Seq<Field>, prefix: Seq<char>) -> Seq<char>
    decreases fs, 1nat,
{
    field_rows(fs, prefix, max_name_width(fs), max_type_width(fs), max_flag_width(fs))
}


// ───────────────────────── exec ─────────────────────────

/// The flag text of a field.
fn flag_text_exec(f: &Field) -> (r: String)
    ensures
        r@ == flag_text(*f),
{
    let mut words: Vec<String> = Vec::new();
    let ghost mut ws: Seq<Seq<char>> = seq![];
    if f.required {
        words.push(owned("required"));
    }
    proof {
        ws = ws + (if f.required { seq!["required"@] } else { seq![] });
        assert(words@.map_values(|p: String| p@) =~= ws);
    }
    if f.optional {
        words.push(owned("optional"));
    }
    proof {
        ws = ws + (if f.optional { seq!["optional"@] } else { seq![] });
        assert(words@.map_values(|p: String| p@) =~= ws);
    }
    if f.nullable {
        words.push(owned("nullable"));
    }
    proof {
        ws = ws + (if f.nullable { seq!["nullable"@] } else { seq![] });
        assert(words@.map_values(|p: String| p@) =~= ws);
    }
    if f.read_only {
        words.push(owned("read-only"));
    }
    proof {
        ws = ws + (if f.read_only { seq!["read-only"@] } else { seq![] });
        assert(words@.map_values(|p: String| p@) =~= ws);
    }
    if f.write_only {
        words.push(owned("write-only"));
    }
    proof {
        ws = ws + (if f.write_only { seq!["write-only"@] } else { seq![] });
        assert(words@.map_values(|p: String| p@) =~= ws);
    }
    if f.deprecated {
        words.push(owned("DEPRECATED"));
    }
    proof {
        ws = ws + (if f.deprecated { seq!["DEPRECATED"@] } else { seq![] });
        assert(words@.map_values(|p: String| p@) =~= ws);
        assert(ws =~= flag_words(*f));
    }
    if words.len() == 0 {
        let r = String::new();
        assert(r@ =~= flag_text(*f));
        r
    } else {
        let mut r = owned("(");
        let j = join_strings(&words, ", ");
        push_str(&mut r, j.as_str());
        push_str(&mut r, ")");
        r
    }
}

/// Width of the flag column of a field table.
pub fn compute_max_flag_width(fields: &[Field]) -> (w: usize)
    ensures
        w == max_flag_width(fields@),
{
    let mut w: usize = 0;
    let mut i: usize = 0;
    while i < fields.len()
        invariant
            i <= fields.len(),
            w == max_of(fields@.take(i as int), |f: Field| flag_text(f).len()),
        decreases fields.len() - i,
    {
        proof { lemma_max_of_take(fields@, i as int, |f: Field| flag_text(f).len()); }
        let t = flag_text_exec(&fields[i]);
        let l = char_count(t.as_str());
        if l > w {
            w = l;
        }
        i = i + 1;
    }
    assert(fields@.take(fields@.len() as int) =~= fields@);
    w
}

fn max_name_exec(fields: &[Field]) -> (w: usize)
    ensures
        w == max_name_width(fields@),
{
    let mut w: usize = 0;
    let mut i: usize = 0;
    while i < fields.len()
        invariant
            i <= fields.len(),
            w == max_of(fields@.take(i as int), |f: Field| len_bytes(f.name@)),
        decreases fields.len() - i,
    {
        proof { lemma_max_of_take(fields@, i as int, |f: Field| len_bytes(f.name@)); }
        let l = str_len(fields[i].name.as_str());
        if l > w {
            w = l;
        }
        i = i + 1;
    }
    assert(fields@.take(fields@.len() as int) =~= fields@);
    w
}

fn max_type_exec(fields: &[Field]) -> (w: usize)
    ensures
        w == max_type_width(fields@),
{
    let mut w: usize = 0;
    let mut i: usize = 0;
    while i < fields.len()
        invariant
            i <= fields.len(),
            w == max_of(fields@.take(i as int), |f: Field| len_bytes(f.type_display@)),
        decreases fields.len() - i,
    {
        proof { lemma_max_of_take(fields@, i as int, |f: Field| len_bytes(f.type_display@)); }
        let l = str_len(fields[i].type_display.as_str());
        if l > w {
            w = l;
        }
        i = i + 1;
    }
    assert(fields@.take(fields@.len() as int) =~= fields@);
    w
}

/// Appends `  Enum: [..]` for a non-empty list of values.
pub fn push_enum_text(out: &mut String, vs: &Vec<String>)
    ensures
        final(out)@ == old(out)@ + enum_text(vs@),
{
    if vs.len() > 0 {
        push_str(out, "  Enum: [");
        push_join_san(out, vs.as_slice(), ", ");
        push_str(out, "]");
    } else {
        assert(out@ =~= old(out)@ + enum_text(vs@));
    }
}

fn push_field_row(out: &mut String, f: &Field, prefix: &str, nw: usize, tw: usize, fw: usize)
    ensures
        final(out)@ == old(out)@ + field_row(*f, prefix@, nw as nat, tw as nat, fw as nat),
{
    let mut line = owned(prefix);
    let name = crate::render::sanitize::sanitize(f.name.as_str());
    push_padded(&mut line, name.as_str(), nw);
    push_str(&mut line, "  ");
    let ty = crate::render::sanitize::sanitize(f.type_display.as_str());
    push_padded(&mut line, ty.as_str(), tw);
    push_str(&mut line, "  ");
    let flags = flag_text_exec(f);
    push_padded(&mut line, flags.as_str(), fw);
    push_str(&mut line, "  ");
    push_san_opt(&mut line, &f.description);
    if f.constraints.len() > 0 {
        push_str(&mut line, "  ");
        let c = join_strings(&f.constraints, " ");
        push_str(&mut line, c.as_str());
    } else {
        assert(line@ =~= line@ + constraints_text(f.constraints@));
    }
    push_enum_text(&mut line, &f.enum_values);
    push_str(&mut line, "\n");
    push_str(out, line.as_str());
}

/// Appends the table of `fields`, each line starting with `prefix`.
fn push_field_table(out: &mut String, fields: &[Field], prefix: &str)
    ensures
        final(out)@ == old(out)@ + field_table(fields@, prefix@),
    decreases fields@,
{
    let nw = max_name_exec(fields);
    let tw = max_type_exec(fields);
    let fw = compute_max_flag_width(fields);
    let ghost start = out@;
    let mut i: usize = 0;
    while i < fields.len()
        invariant
            i <= fields.len(),
            nw == max_name_width(fields@),
            tw == max_type_width(fields@),
            fw == max_flag_width(fields@),
            out@ == start + field_rows(fields@.take(i as int), prefix@, nw as nat, tw as nat, fw as nat),
        decreases fields.len() - i,
    {
        let f = &fields[i];
        let ghost before = out@;
        proof {
            let t = fields@.take(i + 1);
            assert(t.subrange(0, t.len() - 1) =~= fields@.take(i as int));
            assert(t[t.len() - 1] == fields@[i as int]);
            assert(field_rows(t, prefix@, nw as nat, tw as nat, fw as nat)
                == field_rows(fields@.take(i as int), prefix@, nw as nat, tw as nat, fw as nat)
                    + field_lines(fields@[i as int], prefix@, nw as nat, tw as nat, fw as nat));
        }
        if f.nested_fields.len() > 0 {
            let mut head = owned(prefix);
            let name = crate::render::sanitize::sanitize(f.name.as_str());
            push_padded(&mut head, name.as_str(), nw);
            push_str(&mut head, "  ");
            push_san(&mut head, f.type_display.as_str());
            push_str(&mut head, ":\n");
            push_str(out, head.as_str());
            let mut inner = owned(prefix);
            push_str(&mut inner, "  ");
            proof {
                assert(decreases_to!(fields@ => fields@[i as int]));
                assert(decreases_to!(fields@[i as int] => fields@[i as int].nested_fields));
            }
            push_field_table(out, f.nested_fields.as_slice(), inner.as_str());
            assert(out@ =~= before + field_lines(fields@[i as int], prefix@, nw as nat, tw as nat, fw as nat));
        } else {
            push_field_row(out, f, prefix, nw, tw, fw);
        }
        i = i + 1;
    }
    assert(fields@.take(fields@.len() as int) =~= fields@);
}

/// Appends the field table of a schema or body, indented `indent` spaces.
pub fn render_schema_fields(out: &mut String, fields: &[Field], indent: usize)
    ensures
        final(out)@ == old(out)@ + field_table(fields@, crate::strutil::spaces(indent as nat)),
{
    let mut prefix = String::new();
    crate::strutil::push_spaces(&mut prefix, indent);
    assert(prefix@ =~= crate::strutil::spaces(indent as nat));
    push_field_table(out, fields, prefix.as_str());
}

/// Appends the field table of a request body, response or related schema:
/// the table indented two spaces (nothing for no fields).
pub fn render_fields_section(out: &mut String, fields: &[Field])
    ensures
        final(out)@ == old(out)@ + field_table(fields@, "  "@),
{
    let prefix = owned("  ");
    push_field_table(out, fields, prefix.as_str());
}

} // verus!
