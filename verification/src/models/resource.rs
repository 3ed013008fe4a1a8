//! Resource groups, endpoints and fields, and the naming rules for tags.
use vstd::prelude::*;
use crate::models::json::JsonValue;
use vstd::utf8::{encode_scalar, encode_utf8};
use crate::strutil::{
    byte_len, char_is_lowercase, char_is_uppercase, char_utf8_len, chars_to_string, contains_seq,
    ends_with, has_char, is_ascii_text, is_lowercase, no_ascii_capital, is_uppercase, lemma_encode_utf8_concat, lowercase,
    seq_contains,
    seq_ends_with, str_to_lowercase, to_chars,
};

verus! {

#[derive(Debug)]
pub struct ResourceGroup {
    pub slug: String,
    pub display_name: String,
    pub description: Option<String>,
    pub is_deprecated: bool,
    pub is_alpha: bool,
    pub endpoints: Vec<Endpoint>,
}

#[derive(Debug)]
pub struct Endpoint {
    pub method: String,
    pub path: String,
    pub summary: Option<String>,
    pub description: Option<String>,
    pub is_deprecated: bool,
    pub is_alpha: bool,
    pub external_docs: Option<ExternalDoc>,
    pub parameters: Vec<Parameter>,
    pub request_body: Option<RequestBody>,
    pub responses: Vec<Response>,
    pub security_schemes: Vec<String>,
    pub callbacks: Vec<CallbackEntry>,
    pub links: Vec<ResponseLink>,
    pub drill_deeper: Vec<String>,
}

#[derive(Debug, Clone)]
pub struct Parameter {
    pub name: String,
    pub location: ParameterLocation,
    pub required: bool,
    pub schema_type: String,
    pub format: Option<String>,
    pub description: Option<String>,
    pub enum_values: Vec<String>,
}

#[derive(Debug, Clone, Copy, PartialEq, Eq, Structural)]
pub enum ParameterLocation {
    Path,
    Query,
    Header,
    Cookie,
}

/// A request body. `example` holds the example as pretty-printed JSON text.
#[derive(Debug)]
pub struct RequestBody {
    pub content_type: String,
    pub fields: Vec<Field>,
    /// Schema names for oneOf/anyOf request bodies (fields are empty then).
    pub options: Vec<String>,
    pub schema_ref: Option<String>,
    pub example: Option<String>,
    /// For `type: array` bodies with `items.$ref`, the item type name.
    pub array_item_type: Option<String>,
}

/// A response. `example` holds the example as pretty-printed JSON text.
#[derive(Debug)]
pub struct Response {
    pub status_code: String,
    pub description: String,
    pub schema_ref: Option<String>,
    pub example: Option<String>,
    pub headers: Vec<ResponseHeader>,
    pub links: Vec<ResponseLink>,
    /// Expanded schema fields, filled when the detail is expanded.
    pub fields: Vec<Field>,
}

#[derive(Debug, Clone)]
pub struct ExternalDoc {
    pub url: String,
    pub description: Option<String>,
}

#[derive(Debug, Clone)]
pub struct ResponseHeader {
    pub name: String,
    pub type_display: String,
    pub description: Option<String>,
}

#[derive(Debug, Clone)]
pub struct ResponseLink {
    pub name: String,
    pub operation_id: String,
    pub parameters: Vec<String>,
    pub description: Option<String>,
    pub drill_command: Option<String>,
}

#[derive(Debug, Clone)]
pub struct CallbackResponse {
    pub status_code: String,
    pub description: String,
}

#[derive(Debug, Clone)]
pub struct CallbackOperation {
    pub method: String,
    pub url_expression: String,
    pub summary: Option<String>,
    pub body_schema: Option<String>,
    pub responses: Vec<CallbackResponse>,
}

#[derive(Debug, Clone)]
pub struct CallbackEntry {
    pub name: String,
    pub defined_on_operation_id: Option<String>,
    pub defined_on_method: String,
    pub defined_on_path: String,
    pub operations: Vec<CallbackOperation>,
}

/// One field of a schema. `default_value` holds JSON text.
#[derive(Debug)]
pub struct Field {
    pub name: String,
    pub type_display: String,
    pub required: bool,
    pub optional: bool,
    pub nullable: bool,
    pub read_only: bool,
    pub write_only: bool,
    pub deprecated: bool,
    pub description: Option<String>,
    pub enum_values: Vec<String>,
    pub constraints: Vec<String>,
    pub default_value: Option<String>,
    pub example: Option<JsonValue>,
    pub nested_schema_name: Option<String>,
    pub nested_fields: Vec<Field>,
}

// ───────────────────────── tag naming rules ─────────────────────────

/// `s` with its last `k` bytes cut off, where that cut falls between two
/// characters; `s` itself where it does not.
pub open spec fn cut_bytes(s: Seq<char>, k: nat) -> Seq<char> {
    if is_cut_point(s, k, cut_index(s, k)) {
        s.take(cut_index(s, k))
    } else {
        s
    }
}

/// Whether the characters of `s` from position `j` on take exactly `k` bytes.
pub open spec fn is_cut_point(s: Seq<char>, k: nat, j: int) -> bool {
    0 <= j <= s.len() && byte_len(s.skip(j)) == k
}

pub open spec fn cut_index(s: Seq<char>, k: nat) -> int {
    choose|j: int| is_cut_point(s, k, j)
}

/// A tag name without a trailing " (Deprecated)" or " (Alpha)" qualifier,
/// matched case-insensitively (the deprecated one is tried first).
pub open spec fn strip_status(s: Seq<char>) -> Seq<char> {
    let lower = lowercase(s);
    if ends_with(lower, " (deprecated)"@) {
        cut_bytes(s, byte_len(" (deprecated)"@))
    } else if ends_with(lower, " (alpha)"@) {
        cut_bytes(s, byte_len(" (alpha)"@))
    } else {
        s
    }
}

/// `s` with `sep` inserted before every uppercase character that follows a
/// lowercase one (a PascalCase split).
pub open spec fn pascal_split(s: Seq<char>, sep: char) -> Seq<char>
    decreases s.len(),
{
    if s.len() == 0 {
        seq![]
    } else {
        let i = s.len() - 1;
        let head = pascal_split(s.drop_last(), sep);
        if is_uppercase(s[i]) && i > 0 && is_lowercase(s[i - 1]) {
            head.push(sep).push(s[i])
        } else {
            head.push(s[i])
        }
    }
}

/// `s` with every space replaced by a hyphen.
pub open spec fn spaces_to_hyphens(s: Seq<char>) -> Seq<char> {
    s.map_values(|c: char| if c == ' ' { '-' } else { c })
}

/// `s` with every run of hyphens shortened to one hyphen.
pub open spec fn collapse_hyphens(s: Seq<char>) -> Seq<char>
    decreases s.len(),
{
    if s.len() == 0 {
        seq![]
    } else {
        let i = s.len() - 1;
        let head = collapse_hyphens(s.drop_last());
        if s[i] == '-' && i > 0 && s[i - 1] == '-' {
            head
        } else {
            head.push(s[i])
        }
    }
}

/// `s` without leading hyphens.
pub open spec fn trim_start_hyphens(s: Seq<char>) -> Seq<char>
    decreases s.len(),
{
    if s.len() > 0 && s[0] == '-' {
        trim_start_hyphens(s.drop_first())
    } else {
        s
    }
}

/// `s` without trailing hyphens.
pub open spec fn trim_end_hyphens(s: Seq<char>) -> Seq<char>
    decreases s.len(),
{
    if s.len() > 0 && s.last() == '-' {
        trim_end_hyphens(s.drop_last())
    } else {
        s
    }
}

/// The display name of a tag: status qualifier removed, PascalCase split
/// with spaces unless the name already holds a space.
pub open spec fn spec_humanize(tag: Seq<char>) -> Seq<char> {
    let s = strip_status(tag);
    if s.contains(' ') {
        s
    } else {
        pascal_split(s, ' ')
    }
}

/// The slug of a tag: status qualifier removed, PascalCase split with
/// hyphens, spaces made hyphens, lowercased, hyphen runs collapsed and
/// hyphens trimmed from both ends.
pub open spec fn spec_slugify(tag: Seq<char>) -> Seq<char> {
    let s = strip_status(tag);
    let lowered = lowercase(spaces_to_hyphens(pascal_split(s, '-')));
    trim_end_hyphens(trim_start_hyphens(collapse_hyphens(lowered)))
}

pub proof fn lemma_suffix_bytes_step(s: Seq<char>, j: int)
    requires
        0 <= j < s.len(),
    ensures
        byte_len(s.skip(j)) == byte_len(seq![s[j]]) + byte_len(s.skip(j + 1)),
        byte_len(seq![s[j]]) >= 1,
{
    assert(s.skip(j) =~= seq![s[j]] + s.skip(j + 1));
    lemma_encode_utf8_concat(seq![s[j]], s.skip(j + 1));
    assert(encode_utf8(seq![s[j]]) =~= encode_scalar(s[j] as u32) + encode_utf8(seq![s[j]].drop_first()));
}

pub proof fn lemma_suffix_bytes_strict(s: Seq<char>, a: int, b: int)
    requires
        0 <= a < b <= s.len(),
    ensures
        byte_len(s.skip(a)) > byte_len(s.skip(b)),
    decreases b - a,
{
    lemma_suffix_bytes_step(s, a);
    if a + 1 < b {
        lemma_suffix_bytes_strict(s, a + 1, b);
    }
}

/// A tag that already holds a space keeps its words as they are: only its
/// status qualifier is removed.
pub proof fn lemma_humanize_keeps_spaced(tag: Seq<char>)
    requires
        strip_status(tag).contains(' '),
    ensures
        spec_humanize(tag) == strip_status(tag),
{
}

/// No hyphen follows another.
pub open spec fn no_double_hyphen(t: Seq<char>) -> bool {
    forall|i: int| 0 <= i < t.len() - 1 ==> !(#[trigger] t[i] == '-' && t[i + 1] == '-')
}

proof fn lemma_collapse(s: Seq<char>)
    ensures
        no_double_hyphen(collapse_hyphens(s)),
        s.len() > 0 ==> collapse_hyphens(s).len() > 0 && collapse_hyphens(s).last() == s.last(),
    decreases s.len(),
{
    if s.len() > 0 {
        let i = s.len() - 1;
        lemma_collapse(s.drop_last());
        let h = collapse_hyphens(s.drop_last());
        if !(s[i] == '-' && i > 0 && s[i - 1] == '-') {
            let c = h.push(s[i]);
            assert forall|k: int| 0 <= k < c.len() - 1 implies !(#[trigger] c[k] == '-' && c[k + 1] == '-') by {
                if k < h.len() - 1 {
                    assert(c[k] == h[k] && c[k + 1] == h[k + 1]);
                } else {
                    assert(k == h.len() - 1);
                    assert(c[k] == h.last());
                    assert(h.last() == s.drop_last().last());
                }
            }
        }
    }
}

proof fn lemma_trim_start(s: Seq<char>)
    ensures
        exists|k: int| 0 <= k <= s.len() && trim_start_hyphens(s) == s.skip(k),
        trim_start_hyphens(s).len() == 0 || trim_start_hyphens(s)[0] != '-',
    decreases s.len(),
{
    if s.len() > 0 && s[0] == '-' {
        lemma_trim_start(s.drop_first());
        let k = choose|k: int| 0 <= k <= s.drop_first().len() && trim_start_hyphens(s.drop_first()) == s.drop_first().skip(k);
        assert(s.drop_first().skip(k) =~= s.skip(k + 1));
    } else {
        assert(s.skip(0) =~= s);
    }
}

proof fn lemma_trim_end(s: Seq<char>)
    ensures
        exists|k: int| 0 <= k <= s.len() && trim_end_hyphens(s) == s.take(k),
        trim_end_hyphens(s).len() == 0 || trim_end_hyphens(s).last() != '-',
    decreases s.len(),
{
    if s.len() > 0 && s.last() == '-' {
        lemma_trim_end(s.drop_last());
        let k = choose|k: int| 0 <= k <= s.drop_last().len() && trim_end_hyphens(s.drop_last()) == s.drop_last().take(k);
        assert(s.drop_last().take(k) =~= s.take(k));
    } else {
        assert(s.take(s.len() as int) =~= s);
    }
}

/// A slug neither starts nor ends with a hyphen, and never holds two
/// hyphens in a row.
pub proof fn lemma_slug_hyphens(tag: Seq<char>)
    ensures
        spec_slugify(tag).len() == 0 || (spec_slugify(tag)[0] != '-' && spec_slugify(tag).last() != '-'),
        no_double_hyphen(spec_slugify(tag)),
{
    let lowered = lowercase(spaces_to_hyphens(pascal_split(strip_status(tag), '-')));
    let c = collapse_hyphens(lowered);
    lemma_collapse(lowered);
    let u = trim_start_hyphens(c);
    lemma_trim_start(c);
    let k1 = choose|k: int| 0 <= k <= c.len() && u == c.skip(k);
    assert(no_double_hyphen(u)) by {
        assert forall|i: int| 0 <= i < u.len() - 1 implies !(#[trigger] u[i] == '-' && u[i + 1] == '-') by {
            assert(u[i] == c[i + k1] && u[i + 1] == c[i + k1 + 1]);
        }
    }
    let v = trim_end_hyphens(u);
    lemma_trim_end(u);
    let k2 = choose|k: int| 0 <= k <= u.len() && v == u.take(k);
    assert(no_double_hyphen(v)) by {
        assert forall|i: int| 0 <= i < v.len() - 1 implies !(#[trigger] v[i] == '-' && v[i + 1] == '-') by {
            assert(v[i] == u[i] && v[i + 1] == u[i + 1]);
        }
    }
    if v.len() > 0 {
        assert(v[0] == u[0]);
    }
}

// ───────────────────────── slugs are stable ─────────────────────────

/// Text a slug of ASCII text is made of: ASCII, no space, no capital.
pub open spec fn plain_text(s: Seq<char>) -> bool {
    forall|i: int| 0 <= i < s.len() ==> {
        let c = #[trigger] s[i];
        (c as u32) < 128 && c != ' ' && !('A' <= c <= 'Z')
    }
}

proof fn lemma_strip_status_prefix(s: Seq<char>)
    ensures
        exists|k: int| 0 <= k <= s.len() && #[trigger] s.take(k) == strip_status(s),
{
    assert(s.take(s.len() as int) =~= s);
    let lower = lowercase(s);
    if ends_with(lower, " (deprecated)"@) || ends_with(lower, " (alpha)"@) {
        let k: nat = if ends_with(lower, " (deprecated)"@) { byte_len(" (deprecated)"@) } else { byte_len(" (alpha)"@) };
        if is_cut_point(s, k, cut_index(s, k)) {
            assert(s.take(cut_index(s, k)) == strip_status(s));
        }
    }
}

proof fn lemma_pascal_ascii(s: Seq<char>)
    requires
        is_ascii_text(s),
    ensures
        is_ascii_text(pascal_split(s, '-')),
    decreases s.len(),
{
    if s.len() > 0 {
        let d = s.drop_last();
        assert forall|i: int| 0 <= i < d.len() implies ((#[trigger] d[i]) as u32) < 128 by {
            assert(d[i] == s[i]);
        }
        lemma_pascal_ascii(d);
        assert(((s[s.len() - 1]) as u32) < 128);
    }
}

proof fn lemma_collapse_members(s: Seq<char>)
    ensures
        forall|i: int| 0 <= i < collapse_hyphens(s).len() ==> s.contains(#[trigger] collapse_hyphens(s)[i]),
    decreases s.len(),
{
    if s.len() > 0 {
        let d = s.drop_last();
        lemma_collapse_members(d);
        let c = collapse_hyphens(s);
        assert forall|i: int| 0 <= i < c.len() implies s.contains(#[trigger] c[i]) by {
            if i < collapse_hyphens(d).len() {
                assert(c[i] == collapse_hyphens(d)[i]);
                let j = choose|j: int| 0 <= j < d.len() && d[j] == c[i];
                assert(s[j] == d[j]);
            } else {
                assert(c[i] == s[s.len() - 1]);
            }
        }
    }
}

proof fn lemma_slug_plain(tag: Seq<char>)
    requires
        is_ascii_text(tag),
    ensures
        plain_text(spec_slugify(tag)),
{
    let s = strip_status(tag);
    lemma_strip_status_prefix(tag);
    let k = choose|k: int| 0 <= k <= tag.len() && #[trigger] tag.take(k) == s;
    assert forall|i: int| 0 <= i < s.len() implies ((#[trigger] s[i]) as u32) < 128 by {
        assert(s[i] == tag[i]);
    }
    lemma_pascal_ascii(s);
    let p = pascal_split(s, '-');
    let h = spaces_to_hyphens(p);
    assert forall|i: int| 0 <= i < h.len() implies ((#[trigger] h[i]) as u32) < 128 by {
        assert(((p[i]) as u32) < 128);
    }
    let l = lowercase(h);
    reveal(lowercase);
    assert(l == h.map_values(|c: char| crate::strutil::ascii_lower(c)));
    assert(plain_text(l)) by {
        assert forall|i: int| 0 <= i < l.len() implies {
            let c = #[trigger] l[i];
            (c as u32) < 128 && c != ' ' && !('A' <= c <= 'Z')
        } by {
            assert(h[i] == (if p[i] == ' ' { '-' } else { p[i] }));
            assert(((p[i]) as u32) < 128);
        }
    }
    let c = collapse_hyphens(l);
    lemma_collapse_members(l);
    assert(plain_text(c)) by {
        assert forall|i: int| 0 <= i < c.len() implies {
            let x = #[trigger] c[i];
            (x as u32) < 128 && x != ' ' && !('A' <= x <= 'Z')
        } by {
            assert(l.contains(c[i]));
            let j = choose|j: int| 0 <= j < l.len() && l[j] == c[i];
            assert(plain_text(l));
        }
    }
    let u = trim_start_hyphens(c);
    lemma_trim_start(c);
    let k1 = choose|k: int| 0 <= k <= c.len() && u == c.skip(k);
    assert forall|i: int| 0 <= i < u.len() implies {
        let x = #[trigger] u[i];
        (x as u32) < 128 && x != ' ' && !('A' <= x <= 'Z')
    } by {
        assert(u[i] == c[i + k1]);
    }
    let v = trim_end_hyphens(u);
    lemma_trim_end(u);
    let k2 = choose|k: int| 0 <= k <= u.len() && v == u.take(k);
    assert forall|i: int| 0 <= i < v.len() implies {
        let x = #[trigger] v[i];
        (x as u32) < 128 && x != ' ' && !('A' <= x <= 'Z')
    } by {
        assert(v[i] == u[i]);
    }
}

proof fn lemma_pascal_unchanged(s: Seq<char>)
    requires
        plain_text(s),
    ensures
        pascal_split(s, '-') == s,
    decreases s.len(),
{
    if s.len() > 0 {
        let d = s.drop_last();
        assert forall|i: int| 0 <= i < d.len() implies {
            let c = #[trigger] d[i];
            (c as u32) < 128 && c != ' ' && !('A' <= c <= 'Z')
        } by {
            assert(d[i] == s[i]);
        }
        lemma_pascal_unchanged(d);
        reveal(is_uppercase);
        assert(!is_uppercase(s[s.len() - 1]));
        assert(d.push(s[s.len() - 1]) =~= s);
    }
}

proof fn lemma_collapse_unchanged(s: Seq<char>)
    requires
        no_double_hyphen(s),
    ensures
        collapse_hyphens(s) == s,
    decreases s.len(),
{
    if s.len() > 0 {
        let d = s.drop_last();
        assert forall|i: int| 0 <= i < d.len() - 1 implies !(#[trigger] d[i] == '-' && d[i + 1] == '-') by {
            assert(d[i] == s[i] && d[i + 1] == s[i + 1]);
        }
        lemma_collapse_unchanged(d);
        if s.len() > 1 {
            assert(!(s[s.len() - 2] == '-' && s[s.len() - 1] == '-'));
        }
        assert(d.push(s[s.len() - 1]) =~= s);
    }
}

/// Slugifying a slug of an ASCII tag gives it back: a slug is its own
/// slug.
pub proof fn lemma_slugify_idempotent(tag: Seq<char>)
    requires
        is_ascii_text(tag),
    ensures
        spec_slugify(spec_slugify(tag)) == spec_slugify(tag),
{
    let r = spec_slugify(tag);
    lemma_slug_plain(tag);
    lemma_slug_hyphens(tag);
    reveal(lowercase);
    assert(is_ascii_text(r)) by {
        assert forall|i: int| 0 <= i < r.len() implies ((#[trigger] r[i]) as u32) < 128 by {}
    }
    assert(lowercase(r) =~= r) by {
        assert forall|i: int| 0 <= i < r.len() implies crate::strutil::ascii_lower(#[trigger] r[i]) == r[i] by {}
        assert(r.map_values(|c: char| crate::strutil::ascii_lower(c)) =~= r);
    }
    reveal_strlit(" (deprecated)");
    reveal_strlit(" (alpha)");
    assert(!ends_with(r, " (deprecated)"@)) by {
        if ends_with(r, " (deprecated)"@) {
            let q = r.len() - " (deprecated)"@.len();
            assert(r.subrange(q, r.len() as int)[0] == ' ');
            assert(r[q] == ' ');
        }
    }
    assert(!ends_with(r, " (alpha)"@)) by {
        if ends_with(r, " (alpha)"@) {
            let q = r.len() - " (alpha)"@.len();
            assert(r.subrange(q, r.len() as int)[0] == ' ');
            assert(r[q] == ' ');
        }
    }
    assert(strip_status(r) == r);
    lemma_pascal_unchanged(r);
    assert(spaces_to_hyphens(r) =~= r) by {
        assert forall|i: int| 0 <= i < r.len() implies spaces_to_hyphens(r)[i] == r[i] by {}
    }
    lemma_collapse_unchanged(r);
    assert(trim_start_hyphens(r) == r);
    assert(trim_end_hyphens(r) == r);
}

/// Collapsing and trimming hyphens adds neither a capital nor a space.
proof fn lemma_slug_chars_kept(l: Seq<char>)
    requires
        no_ascii_capital(l),
        !l.contains(' '),
    ensures
        no_ascii_capital(trim_end_hyphens(trim_start_hyphens(collapse_hyphens(l)))),
        !trim_end_hyphens(trim_start_hyphens(collapse_hyphens(l))).contains(' '),
{
    let c = collapse_hyphens(l);
    lemma_collapse_members(l);
    let u = trim_start_hyphens(c);
    lemma_trim_start(c);
    let k1 = choose|k: int| 0 <= k <= c.len() && u == c.skip(k);
    let v = trim_end_hyphens(u);
    lemma_trim_end(u);
    let k2 = choose|k: int| 0 <= k <= u.len() && v == u.take(k);
    assert forall|i: int| 0 <= i < v.len() implies !('A' <= #[trigger] v[i] <= 'Z') && v[i] != ' ' by {
        assert(v[i] == u[i]);
        assert(u[i] == c[i + k1]);
        assert(l.contains(c[i + k1]));
        let j = choose|j: int| 0 <= j < l.len() && l[j] == c[i + k1];
        assert(!('A' <= l[j] <= 'Z'));
    }
}

/// Cuts the last `k` bytes off `s` where that cut falls between characters.
fn cut_bytes_exec(s: &Vec<char>, k: usize) -> (r: Vec<char>)
    requires
        k <= 64,
    ensures
        r@ == cut_bytes(s@, k as nat),
{
    let mut acc: usize = 0;
    let mut j: usize = s.len();
    assert(s@.skip(s@.len() as int) =~= Seq::<char>::empty());
    while acc < k && j > 0
        invariant
            j <= s.len(),
            k <= 64,
            acc == byte_len(s@.skip(j as int)),
            acc <= k + 4,
            j < s.len() ==> byte_len(s@.skip(j + 1)) < k,
        decreases j,
    {
        proof { lemma_suffix_bytes_step(s@, j - 1); }
        let w = char_utf8_len(s[j - 1]);
        acc = acc + w;
        j = j - 1;
    }
    if acc == k {
        assert(is_cut_point(s@, k as nat, j as int));
        proof {
            let w = cut_index(s@, k as nat);
            if w < j {
                lemma_suffix_bytes_strict(s@, w, j as int);
            } else if w > j {
                lemma_suffix_bytes_strict(s@, j as int, w);
            }
        }
        let mut r: Vec<char> = Vec::new();
        let mut t: usize = 0;
        while t < j
            invariant
                t <= j <= s.len(),
                r@ == s@.take(t as int),
            decreases j - t,
        {
            r.push(s[t]);
            t = t + 1;
            assert(r@ =~= s@.take(t as int));
        }
        return r;
    }
    proof {
        let w = cut_index(s@, k as nat);
        if is_cut_point(s@, k as nat, w) {
            if w < j {
                lemma_suffix_bytes_strict(s@, w, j as int);
            } else if w > j + 1 {
                lemma_suffix_bytes_strict(s@, j + 1, w);
            }
        }
    }
    s.clone()
}

proof fn lemma_ascii_literal_bytes(s: Seq<char>)
    requires
        vstd::utf8::is_ascii_chars(s),
    ensures
        byte_len(s) == s.len(),
{
    vstd::utf8::is_ascii_chars_encode_utf8(s);
}

fn strip_status_exec(tag: &str) -> (r: Vec<char>)
    ensures
        r@ == strip_status(tag@),
{
    let s = to_chars(tag);
    let lower_s = str_to_lowercase(tag);
    let lower = to_chars(lower_s.as_str());
    let dep = to_chars(" (deprecated)");
    if seq_ends_with(&lower, &dep) {
        proof {
            reveal_strlit(" (deprecated)");
            lemma_ascii_literal_bytes(" (deprecated)"@);
        }
        return cut_bytes_exec(&s, 13);
    }
    let alpha = to_chars(" (alpha)");
    if seq_ends_with(&lower, &alpha) {
        proof {
            reveal_strlit(" (alpha)");
            lemma_ascii_literal_bytes(" (alpha)"@);
        }
        return cut_bytes_exec(&s, 8);
    }
    s
}

fn pascal_split_exec(s: &Vec<char>, sep: char) -> (r: Vec<char>)
    ensures
        r@ == pascal_split(s@, sep),
{
    let mut r: Vec<char> = Vec::new();
    let mut prev_lower = false;
    let mut i: usize = 0;
    while i < s.len()
        invariant
            i <= s.len(),
            r@ == pascal_split(s@.take(i as int), sep),
            prev_lower == (i > 0 && is_lowercase(s@[i - 1])),
        decreases s.len() - i,
    {
        let ch = s[i];
        proof {
            assert(s@.take(i + 1).drop_last() =~= s@.take(i as int));
        }
        if char_is_uppercase(ch) && prev_lower {
            r.push(sep);
        }
        r.push(ch);
        prev_lower = char_is_lowercase(ch);
        i = i + 1;
    }
    assert(s@.take(s@.len() as int) =~= s@);
    r
}

fn collapse_hyphens_exec(s: &Vec<char>) -> (r: Vec<char>)
    ensures
        r@ == collapse_hyphens(s@),
{
    let mut r: Vec<char> = Vec::new();
    let mut prev_hyphen = false;
    let mut i: usize = 0;
    while i < s.len()
        invariant
            i <= s.len(),
            r@ == collapse_hyphens(s@.take(i as int)),
            prev_hyphen == (i > 0 && s@[i - 1] == '-'),
        decreases s.len() - i,
    {
        let ch = s[i];
        proof {
            assert(s@.take(i + 1).drop_last() =~= s@.take(i as int));
        }
        if ch == '-' {
            if !prev_hyphen {
                r.push('-');
            }
            prev_hyphen = true;
        } else {
            r.push(ch);
            prev_hyphen = false;
        }
        i = i + 1;
    }
    assert(s@.take(s@.len() as int) =~= s@);
    r
}

pub proof fn lemma_trim_start_skip(s: Seq<char>, a: int)
    requires
        0 <= a <= s.len(),
        forall|t: int| 0 <= t < a ==> s[t] == '-',
    ensures
        trim_start_hyphens(s) == trim_start_hyphens(s.skip(a)),
    decreases a,
{
    if a > 0 {
        assert(s.skip(1) =~= s.drop_first());
        lemma_trim_start_skip(s.drop_first(), a - 1);
        assert(s.drop_first().skip(a - 1) =~= s.skip(a));
    } else {
        assert(s.skip(0) =~= s);
    }
}

pub proof fn lemma_trim_end_take(s: Seq<char>, b: int)
    requires
        0 <= b <= s.len(),
        forall|t: int| b <= t < s.len() ==> s[t] == '-',
    ensures
        trim_end_hyphens(s) == trim_end_hyphens(s.take(b)),
    decreases s.len() - b,
{
    if b < s.len() {
        lemma_trim_end_take(s.drop_last(), b);
        assert(s.drop_last().take(b) =~= s.take(b));
    } else {
        assert(s.take(b) =~= s);
    }
}

fn trim_hyphens_exec(s: &Vec<char>) -> (r: Vec<char>)
    ensures
        r@ == trim_end_hyphens(trim_start_hyphens(s@)),
{
    let mut a: usize = 0;
    while a < s.len() && s[a] == '-'
        invariant
            a <= s.len(),
            forall|t: int| 0 <= t < a ==> s@[t] == '-',
        decreases s.len() - a,
    {
        a = a + 1;
    }
    proof {
        lemma_trim_start_skip(s@, a as int);
    }
    let mut b: usize = s.len();
    while b > a && s[b - 1] == '-'
        invariant
            a <= b <= s.len(),
            forall|t: int| b <= t < s.len() ==> s@[t] == '-',
        decreases b,
    {
        b = b - 1;
    }
    let ghost mid = s@.skip(a as int);
    proof {
        assert(trim_start_hyphens(mid) == mid);
        lemma_trim_end_take(mid, b - a);
        let m2 = mid.take(b - a);
        assert(m2 =~= s@.subrange(a as int, b as int));
        if m2.len() > 0 {
            assert(m2.last() == s@[b - 1]);
        }
    }
    let mut r: Vec<char> = Vec::new();
    let mut t: usize = a;
    while t < b
        invariant
            a <= t <= b <= s.len(),
            r@ == s@.subrange(a as int, t as int),
        decreases b - t,
    {
        r.push(s[t]);
        t = t + 1;
        assert(r@ =~= s@.subrange(a as int, t as int));
    }
    r
}

/// Converts a PascalCase or raw tag name to a display name: a trailing
/// status qualifier is removed; a name with spaces is kept as it is; a
/// PascalCase name gets a space before each uppercase letter that follows
/// a lowercase one ("DiscoveryIntegration" becomes "Discovery Integration").
pub fn humanize_tag_name(tag_name: &str) -> (r: String)
    ensures
        r@ == spec_humanize(tag_name@),
{
    let s = strip_status_exec(tag_name);
    if has_char(&s, ' ') {
        return chars_to_string(&s);
    }
    let split = pascal_split_exec(&s, ' ');
    chars_to_string(&split)
}

/// Converts a tag name to a command-line slug: status qualifier removed,
/// PascalCase split with hyphens, spaces made hyphens, lowercased, hyphen
/// runs collapsed and outer hyphens trimmed.
pub fn slugify(tag_name: &str) -> (r: String)
    ensures
        r@ == spec_slugify(tag_name@),
        no_ascii_capital(r@),
        !r@.contains(' '),
{
    let s = strip_status_exec(tag_name);
    let split = pascal_split_exec(&s, '-');
    let mut replaced: Vec<char> = Vec::new();
    let mut i: usize = 0;
    while i < split.len()
        invariant
            i <= split.len(),
            replaced@ == split@.take(i as int).map_values(|c: char| if c == ' ' { '-' } else { c }),
        decreases split.len() - i,
    {
        let c = split[i];
        replaced.push(if c == ' ' { '-' } else { c });
        i = i + 1;
        assert(replaced@ =~= split@.take(i as int).map_values(|c: char| if c == ' ' { '-' } else { c }));
    }
    assert(split@.take(split@.len() as int) =~= split@);
    let replaced_s = chars_to_string(&replaced);
    assert(!replaced@.contains(' ')) by {
        if replaced@.contains(' ') {
            let k = choose|k: int| 0 <= k < replaced@.len() && replaced@[k] == ' ';
            assert(replaced@[k] == (if split@[k] == ' ' { '-' } else { split@[k] }));
        }
    }
    let lowered_s = str_to_lowercase(replaced_s.as_str());
    let lowered = to_chars(lowered_s.as_str());
    let collapsed = collapse_hyphens_exec(&lowered);
    let trimmed = trim_hyphens_exec(&collapsed);
    proof { lemma_slug_chars_kept(lowered@); }
    chars_to_string(&trimmed)
}

/// True when the lowercased tag name contains "(deprecated)".
pub fn is_deprecated_tag(tag_name: &str) -> (r: bool)
    ensures
        r == contains_seq(lowercase(tag_name@), "(deprecated)"@),
{
    let lower_s = str_to_lowercase(tag_name);
    let lower = to_chars(lower_s.as_str());
    let pat = to_chars("(deprecated)");
    seq_contains(&lower, &pat)
}

/// True when the lowercased tag name contains "(alpha)".
pub fn is_alpha_tag(tag_name: &str) -> (r: bool)
    ensures
        r == contains_seq(lowercase(tag_name@), "(alpha)"@),
{
    let lower_s = str_to_lowercase(tag_name);
    let lower = to_chars(lower_s.as_str());
    let pat = to_chars("(alpha)");
    seq_contains(&lower, &pat)
}

} // verus!
