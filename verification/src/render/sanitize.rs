//! Cleaning of document text before it reaches a terminal: HTML stripping,
//! control-character removal, and the small pieces every renderer shares.
use vstd::prelude::*;
use crate::strutil::{
    blank, byte_len, char_is_whitespace, char_utf8_len, chars_to_string, concat_map, decimal,
    ends_with, is_blank, is_whitespace, join, lemma_concat_map_take, lemma_encode_utf8_concat,
    lemma_join_push, lowercase, pad_right, push_char, push_padded, push_str, push_usize,
    str_to_lowercase, to_chars,
};
use vstd::utf8::{encode_scalar, encode_utf8};

verus! {

// ───────────────────────── HTML stripping ─────────────────────────

/// Index of the first '>' at or after `j`, or the end of `s`.
pub open spec fn tag_end(s: Seq<char>, j: int) -> int
    decreases s.len() - j,
{
    if j >= s.len() {
        s.len() as int
    } else if s[j] == '>' {
        j
    } else {
        tag_end(s, j + 1)
    }
}

pub proof fn lemma_tag_end_bounds(s: Seq<char>, j: int)
    requires
        0 <= j,
    ensures
        j <= tag_end(s, j) <= s.len() || (j > s.len() && tag_end(s, j) == s.len()),
    decreases s.len() - j,
{
    if j < s.len() && s[j] != '>' {
        lemma_tag_end_bounds(s, j + 1);
    }
}

pub proof fn lemma_entity_stop_bounds(s: Seq<char>, p: int, j: int)
    requires
        0 <= p <= j,
    ensures
        j <= entity_stop(s, p, j) <= s.len() || (j > s.len() && entity_stop(s, p, j) == s.len()),
    decreases s.len() - j,
{
    if j < s.len() && !(s[j] == ';' || byte_len(s.subrange(p, j + 1)) > 10) {
        lemma_entity_stop_bounds(s, p, j + 1);
    }
}

/// Index of the first non-white-space character at or after `j`, or the end.
pub open spec fn skip_ws(t: Seq<char>, j: int) -> int
    decreases t.len() - j,
{
    if j >= t.len() {
        t.len() as int
    } else if !is_whitespace(t[j]) {
        j
    } else {
        skip_ws(t, j + 1)
    }
}

/// Index of the first white-space character at or after `j`, or the end.
pub open spec fn find_ws(t: Seq<char>, j: int) -> int
    decreases t.len() - j,
{
    if j >= t.len() {
        t.len() as int
    } else if is_whitespace(t[j]) {
        j
    } else {
        find_ws(t, j + 1)
    }
}

/// The first white-space separated word of `t`, or the empty sequence.
pub open spec fn first_word(t: Seq<char>) -> Seq<char> {
    let a = skip_ws(t, 0);
    t.subrange(a, find_ws(t, a))
}

/// What a tag with the given (lowercased) name adds to the text so far.
pub open spec fn apply_tag(out: Seq<char>, name: Seq<char>) -> Seq<char> {
    if name == "br"@ || name == "br/"@ {
        out.push('\n')
    } else if name == "p"@ {
        if out.len() > 0 && !ends_with(out, "\n"@) {
            out + "\n\n"@
        } else if ends_with(out, "\n"@) && !ends_with(out, "\n\n"@) {
            out.push('\n')
        } else {
            out
        }
    } else if name == "/p"@ {
        if !ends_with(out, "\n"@) {
            out + "\n\n"@
        } else {
            out
        }
    } else if name == "li"@ {
        if !ends_with(out, "\n"@) {
            out.push('\n') + "  - "@
        } else {
            out + "  - "@
        }
    } else {
        out
    }
}

/// Where an entity that starts at `p` stops being read: the first `;`, the
/// first character that makes it longer than ten bytes, or the end.
pub open spec fn entity_stop(s: Seq<char>, p: int, j: int) -> int
    decreases s.len() - j,
{
    if j >= s.len() || j < p {
        s.len() as int
    } else if s[j] == ';' || byte_len(s.subrange(p, j + 1)) > 10 {
        j
    } else {
        entity_stop(s, p, j + 1)
    }
}

/// The text an entity name decodes to.
pub open spec fn decode_entity(e: Seq<char>) -> Seq<char> {
    if e == "amp"@ {
        seq!['&']
    } else if e == "lt"@ {
        seq!['<']
    } else if e == "gt"@ {
        seq!['>']
    } else if e == "quot"@ {
        seq!['"']
    } else if e == "apos"@ {
        seq!['\'']
    } else if e == "nbsp"@ {
        seq![' ']
    } else {
        seq!['&'] + e + seq![';']
    }
}

/// HTML stripping of `s` from position `i` on, appended to `out`:
/// `<br>` becomes a newline, `<p>`/`</p>` paragraph breaks, `<li>` a bullet,
/// other tags vanish, and the common entities are decoded. A `&` that
/// starts no entity (no `;` within ten bytes, or none before the end) is
/// kept as it is, with what follows it.
pub open spec fn strip_from(s: Seq<char>, i: int, out: Seq<char>) -> Seq<char>
    decreases s.len() - i,
{
    if i < 0 || i >= s.len() {
        out
    } else if s[i] == '<' {
        let close = tag_end(s, i + 1);
        proof { lemma_tag_end_bounds(s, i + 1); }
        let name = first_word(lowercase(s.subrange(i + 1, close)));
        let next = if close < s.len() { close + 1 } else { s.len() as int };
        strip_from(s, next, apply_tag(out, name))
    } else if s[i] == '&' {
        let p = i + 1;
        let j = entity_stop(s, p, p);
        proof { lemma_entity_stop_bounds(s, p, p); }
        if j >= s.len() {
            out + seq!['&'] + s.subrange(p, s.len() as int)
        } else if s[j] != ';' {
            strip_from(s, j + 1, out + seq!['&'] + s.subrange(p, j + 1))
        } else {
            let e = s.subrange(p, j);
            strip_from(s, j + 1, if e.len() == 0 { out } else { out + decode_entity(e) })
        }
    } else {
        strip_from(s, i + 1, out.push(s[i]))
    }
}

pub open spec fn spec_strip_html(s: Seq<char>) -> Seq<char> {
    strip_from(s, 0, seq![])
}

/// Whether a character survives sanitizing: printable, or tab, newline,
/// carriage return; never DEL.
pub open spec fn is_kept(c: char) -> bool {
    ((c as u32) >= 0x20 || c == '\t' || c == '\n' || c == '\r') && (c as u32) != 0x7F
}

pub open spec fn keep_printable(s: Seq<char>) -> Seq<char>
    decreases s.len(),
{
    if s.len() == 0 {
        seq![]
    } else if is_kept(s.last()) {
        keep_printable(s.drop_last()).push(s.last())
    } else {
        keep_printable(s.drop_last())
    }
}

/// What `sanitize` makes of a string: HTML stripped, then terminal control
/// characters removed.
pub open spec fn spec_sanitize(s: Seq<char>) -> Seq<char> {
    keep_printable(spec_strip_html(s))
}

pub fn vec_eq_str(v: &Vec<char>, lit: &str) -> (r: bool)
    ensures
        r == (v@ == lit@),
{
    let w = to_chars(lit);
    if v.len() != w.len() {
        return false;
    }
    let mut i: usize = 0;
    while i < v.len()
        invariant
            i <= v.len(),
            v.len() == w.len(),
            w@ == lit@,
            forall|j: int| 0 <= j < i ==> v@[j] == w@[j],
        decreases v.len() - i,
    {
        if v[i] != w[i] {
            return false;
        }
        i = i + 1;
    }
    assert(v@ =~= w@);
    true
}

fn vec_ends_with_newline(v: &Vec<char>) -> (r: bool)
    ensures
        r == ends_with(v@, "\n"@),
{
    let r = v.len() > 0 && v[v.len() - 1] == '\n';
    proof {
        reveal_strlit("\n");
        if v.len() > 0 {
            let t = v@.subrange(v@.len() - 1, v@.len() as int);
            assert(t.len() == 1 && t[0] == v@[v@.len() - 1]);
            if r {
                assert(t =~= "\n"@);
            } else {
                assert(t[0] != "\n"@[0]);
            }
        }
    }
    r
}

fn vec_ends_with_two_newlines(v: &Vec<char>) -> (r: bool)
    ensures
        r == ends_with(v@, "\n\n"@),
{
    let r = v.len() > 1 && v[v.len() - 1] == '\n' && v[v.len() - 2] == '\n';
    proof {
        reveal_strlit("\n\n");
        if v.len() > 1 {
            let t = v@.subrange(v@.len() - 2, v@.len() as int);
            assert(t.len() == 2 && t[0] == v@[v@.len() - 2] && t[1] == v@[v@.len() - 1]);
            if r {
                assert(t =~= "\n\n"@);
            } else if t[0] != '\n' {
                assert(t[0] != "\n\n"@[0]);
            } else {
                assert(t[1] != "\n\n"@[1]);
            }
        }
    }
    r
}

fn push_lit(out: &mut Vec<char>, lit: &str)
    ensures
        final(out)@ == old(out)@ + lit@,
{
    let w = to_chars(lit);
    let ghost start = out@;
    let mut i: usize = 0;
    while i < w.len()
        invariant
            i <= w.len(),
            out@ == start + w@.take(i as int),
        decreases w.len() - i,
    {
        out.push(w[i]);
        i = i + 1;
        assert(out@ =~= start + w@.take(i as int));
    }
    assert(w@.take(w@.len() as int) =~= w@);
}

fn apply_tag_exec(out: &mut Vec<char>, name: &Vec<char>)
    ensures
        final(out)@ == apply_tag(old(out)@, name@),
{
    proof {
        reveal_strlit("\n\n");
        reveal_strlit("  - ");
    }
    if vec_eq_str(name, "br") || vec_eq_str(name, "br/") {
        out.push('\n');
    } else if vec_eq_str(name, "p") {
        if out.len() > 0 && !vec_ends_with_newline(out) {
            push_lit(out, "\n\n");
        } else if vec_ends_with_newline(out) && !vec_ends_with_two_newlines(out) {
            out.push('\n');
        }
    } else if vec_eq_str(name, "/p") {
        if !vec_ends_with_newline(out) {
            push_lit(out, "\n\n");
        }
    } else if vec_eq_str(name, "li") {
        if !vec_ends_with_newline(out) {
            out.push('\n');
        }
        push_lit(out, "  - ");
    }
}

fn first_word_exec(t: &Vec<char>) -> (r: Vec<char>)
    ensures
        r@ == first_word(t@),
{
    let mut a: usize = 0;
    while a < t.len() && char_is_whitespace(t[a])
        invariant
            a <= t.len(),
            skip_ws(t@, 0) == skip_ws(t@, a as int),
        decreases t.len() - a,
    {
        a = a + 1;
    }
    let mut b: usize = a;
    while b < t.len() && !char_is_whitespace(t[b])
        invariant
            a <= b <= t.len(),
            skip_ws(t@, 0) == a,
            find_ws(t@, a as int) == find_ws(t@, b as int),
        decreases t.len() - b,
    {
        b = b + 1;
    }
    let mut r: Vec<char> = Vec::new();
    let mut k: usize = a;
    while k < b
        invariant
            a <= k <= b <= t.len(),
            r@ == t@.subrange(a as int, k as int),
        decreases b - k,
    {
        r.push(t[k]);
        k = k + 1;
        assert(r@ =~= t@.subrange(a as int, k as int));
    }
    r
}

fn subrange_vec(s: &Vec<char>, a: usize, b: usize) -> (r: Vec<char>)
    requires
        a <= b <= s.len(),
    ensures
        r@ == s@.subrange(a as int, b as int),
{
    let mut r: Vec<char> = Vec::new();
    let mut k: usize = a;
    while k < b
        invariant
            a <= k <= b <= s.len(),
            r@ == s@.subrange(a as int, k as int),
        decreases b - k,
    {
        r.push(s[k]);
        k = k + 1;
        assert(r@ =~= s@.subrange(a as int, k as int));
    }
    r
}

fn append_vec(out: &mut Vec<char>, v: &Vec<char>)
    ensures
        final(out)@ == old(out)@ + v@,
{
    let ghost start = out@;
    let mut i: usize = 0;
    while i < v.len()
        invariant
            i <= v.len(),
            out@ == start + v@.take(i as int),
        decreases v.len() - i,
    {
        out.push(v[i]);
        i = i + 1;
        assert(out@ =~= start + v@.take(i as int));
    }
    assert(v@.take(v@.len() as int) =~= v@);
}

fn decode_entity_exec(out: &mut Vec<char>, e: &Vec<char>)
    ensures
        final(out)@ == old(out)@ + decode_entity(e@),
{
    if vec_eq_str(e, "amp") {
        out.push('&');
    } else if vec_eq_str(e, "lt") {
        out.push('<');
    } else if vec_eq_str(e, "gt") {
        out.push('>');
    } else if vec_eq_str(e, "quot") {
        out.push('"');
    } else if vec_eq_str(e, "apos") {
        out.push('\'');
    } else if vec_eq_str(e, "nbsp") {
        out.push(' ');
    } else {
        out.push('&');
        append_vec(out, e);
        out.push(';');
        assert(out@ =~= old(out)@ + decode_entity(e@));
        return;
    }
    assert(out@ =~= old(out)@ + decode_entity(e@));
}

/// Strips HTML tags from a string, turning `<br>` into a newline, `<p>` and
/// `</p>` into paragraph breaks and `<li>` into a bullet, and decoding the
/// common entities (`&amp; &lt; &gt; &quot; &apos; &nbsp;`).
pub fn strip_html(s: &str) -> (r: String)
    ensures
        r@ == spec_strip_html(s@),
{
    let v = to_chars(s);
    let mut out: Vec<char> = Vec::new();
    let mut i: usize = 0;
    while i < v.len()
        invariant
            i <= v.len(),
            v@ == s@,
            strip_from(s@, 0, seq![]) == strip_from(s@, i as int, out@),
        decreases v.len() - i,
    {
        if v[i] == '<' {
            let mut close: usize = i + 1;
            while close < v.len() && v[close] != '>'
                invariant
                    i < close <= v.len(),
                    tag_end(v@, (i + 1) as int) == tag_end(v@, close as int),
                decreases v.len() - close,
            {
                close = close + 1;
            }
            let tag = subrange_vec(&v, i + 1, close);
            let tag_s = chars_to_string(&tag);
            let lower_s = str_to_lowercase(tag_s.as_str());
            let lower = to_chars(lower_s.as_str());
            let name = first_word_exec(&lower);
            apply_tag_exec(&mut out, &name);
            i = if close < v.len() { close + 1 } else { v.len() };
        } else if v[i] == '&' {
            let p = i + 1;
            let mut j: usize = p;
            let mut bytes: usize = 0;
            let mut stop = false;
            while j < v.len() && !stop
                invariant
                    p <= j <= v.len(),
                    p == i + 1,
                    !stop ==> entity_stop(v@, p as int, p as int) == entity_stop(v@, p as int, j as int),
                    !stop ==> bytes == byte_len(v@.subrange(p as int, j as int)),
                    !stop ==> bytes <= 10,
                    stop ==> j < v.len() && entity_stop(v@, p as int, p as int) == j,
                decreases v.len() - j + (if stop { 0int } else { 1int }),
            {
                if v[j] == ';' {
                    stop = true;
                } else {
                    let w = char_utf8_len(v[j]);
                    proof {
                        assert(v@.subrange(p as int, j + 1) =~= v@.subrange(p as int, j as int) + seq![v@[j as int]]);
                        lemma_encode_utf8_concat(v@.subrange(p as int, j as int), seq![v@[j as int]]);
                    }
                    if bytes + w > 10 {
                        stop = true;
                    } else {
                        bytes = bytes + w;
                        j = j + 1;
                    }
                }
            }
            if j >= v.len() {
                let ghost before = out@;
                out.push('&');
                let ent = subrange_vec(&v, p, v.len());
                append_vec(&mut out, &ent);
                proof {
                    assert(out@ =~= before + seq!['&'] + v@.subrange(p as int, v@.len() as int));
                    assert(strip_from(s@, v@.len() as int, out@) == out@);
                }
                i = v.len();
            } else if v[j] != ';' {
                let ghost before = out@;
                out.push('&');
                let ent = subrange_vec(&v, p, j + 1);
                append_vec(&mut out, &ent);
                proof {
                    assert(out@ =~= before + seq!['&'] + v@.subrange(p as int, j + 1));
                }
                i = j + 1;
            } else {
                let ent = subrange_vec(&v, p, j);
                if ent.len() > 0 {
                    decode_entity_exec(&mut out, &ent);
                }
                i = j + 1;
            }
        } else {
            out.push(v[i]);
            i = i + 1;
        }
    }
    chars_to_string(&out)
}


/// Strips HTML, then removes terminal control characters (everything below
/// 0x20 except tab, newline and carriage return, and DEL), so that text
/// from a document cannot inject escape sequences into the output.
pub fn sanitize(s: &str) -> (r: String)
    ensures
        r@ == spec_sanitize(s@),
{
    let stripped = strip_html(s);
    let v = to_chars(stripped.as_str());
    let mut out = String::new();
    let mut i: usize = 0;
    while i < v.len()
        invariant
            i <= v.len(),
            v@ == spec_strip_html(s@),
            out@ == keep_printable(v@.take(i as int)),
        decreases v.len() - i,
    {
        let c = v[i];
        let n = c as u32;
        proof {
            assert(v@.take(i + 1).drop_last() =~= v@.take(i as int));
        }
        if (n >= 0x20 || c == '\t' || c == '\n' || c == '\r') && n != 0x7F {
            push_char(&mut out, c);
        }
        i = i + 1;
    }
    assert(v@.take(v@.len() as int) =~= v@);
    out
}


// ───────────────────────── laws ─────────────────────────

/// Sanitized text holds no terminal control character: every character is
/// printable, a tab, a newline or a carriage return, and none is DEL.
pub proof fn lemma_sanitized_is_printable(s: Seq<char>)
    ensures
        forall|i: int| 0 <= i < spec_sanitize(s).len() ==> is_kept(#[trigger] spec_sanitize(s)[i]),
{
    lemma_keep_printable_kept(spec_strip_html(s));
}

proof fn lemma_keep_printable_kept(s: Seq<char>)
    ensures
        forall|i: int| 0 <= i < keep_printable(s).len() ==> is_kept(#[trigger] keep_printable(s)[i]),
    decreases s.len(),
{
    if s.len() > 0 {
        lemma_keep_printable_kept(s.drop_last());
        let h = keep_printable(s.drop_last());
        if is_kept(s.last()) {
            assert forall|i: int| 0 <= i < h.push(s.last()).len() implies is_kept(#[trigger] h.push(s.last())[i]) by {
                if i < h.len() {
                    assert(h.push(s.last())[i] == h[i]);
                }
            }
        }
    }
}

proof fn lemma_keep_printable_id(s: Seq<char>)
    requires
        forall|i: int| 0 <= i < s.len() ==> is_kept(#[trigger] s[i]),
    ensures
        keep_printable(s) == s,
    decreases s.len(),
{
    if s.len() > 0 {
        lemma_keep_printable_id(s.drop_last());
        assert(s.drop_last().push(s.last()) =~= s);
    }
}

proof fn lemma_strip_plain(s: Seq<char>, i: int, out: Seq<char>)
    requires
        0 <= i <= s.len(),
        forall|k: int| 0 <= k < s.len() ==> (#[trigger] s[k]) != '<' && s[k] != '&',
    ensures
        strip_from(s, i, out) == out + s.skip(i),
    decreases s.len() - i,
{
    if i < s.len() {
        lemma_strip_plain(s, i + 1, out.push(s[i]));
        assert(out.push(s[i]) + s.skip(i + 1) =~= out + s.skip(i));
    } else {
        assert(s.skip(i) =~= Seq::<char>::empty());
        assert(out + s.skip(i) =~= out);
    }
}

/// Text without tags, entities or control characters passes through
/// sanitizing unchanged.
pub proof fn lemma_plain_text_unchanged(s: Seq<char>)
    requires
        forall|k: int| 0 <= k < s.len() ==> (#[trigger] s[k]) != '<' && s[k] != '&' && is_kept(s[k]),
    ensures
        spec_sanitize(s) == s,
{
    lemma_strip_plain(s, 0, seq![]);
    assert(seq![] + s.skip(0) =~= s);
    lemma_keep_printable_id(s);
}

// ───────────────────────── shared pieces ─────────────────────────

pub open spec fn san(s: Seq<char>) -> Seq<char> {
    spec_sanitize(s)
}

/// The text of an optional string, or nothing.
pub open spec fn opt_text(o: Option<String>) -> Seq<char> {
    match o {
        Some(s) => s@,
        None => seq![],
    }
}

pub open spec fn only_if(c: bool, t: Seq<char>) -> Seq<char> {
    if c { t } else { seq![] }
}

/// Appends the sanitized form of `s`.
pub fn push_san(out: &mut String, s: &str)
    ensures
        final(out)@ == old(out)@ + san(s@),
{
    let t = sanitize(s);
    push_str(out, t.as_str());
}

/// The sanitized strings of `v`, joined by `sep`.
pub open spec fn join_san(v: Seq<String>, sep: Seq<char>) -> Seq<char> {
    join(v.map_values(|x: String| san(x@)), sep)
}

pub fn push_join_san(out: &mut String, v: &[String], sep: &str)
    ensures
        final(out)@ == old(out)@ + join_san(v@, sep@),
{
    let ghost views = v@.map_values(|x: String| san(x@));
    let ghost start = out@;
    let mut i: usize = 0;
    while i < v.len()
        invariant
            i <= v.len(),
            views == v@.map_values(|x: String| san(x@)),
            out@ == start + join(views.take(i as int), sep@),
        decreases v.len() - i,
    {
        proof {
            assert(views.take(i + 1) =~= views.take(i as int).push(views[i as int]));
            lemma_join_push(views.take(i as int), views[i as int], sep@);
        }
        if i > 0 {
            push_str(out, sep);
        }
        push_san(out, v[i].as_str());
        i = i + 1;
    }
    assert(views.take(v@.len() as int) =~= views);
}

pub fn str_eq(a: &str, b: &str) -> (r: bool)
    ensures
        r == (a@ == b@),
{
    let v = to_chars(a);
    vec_eq_str(&v, b)
}

pub fn push_san_opt(out: &mut String, o: &Option<String>)
    ensures
        final(out)@ == old(out)@ + san(opt_text(*o)),
{
    match o {
        Some(d) => push_san(out, d.as_str()),
        None => {
            assert(san(opt_text(*o)) =~= Seq::<char>::empty());
            assert(out@ =~= old(out)@ + san(opt_text(*o)));
        },
    }
}

/// A string holding the text of `s`.
pub fn owned(s: &str) -> (r: String)
    ensures
        r@ == s@,
{
    let mut r = String::new();
    push_str(&mut r, s);
    assert(r@ =~= s@);
    r
}

} // verus!
