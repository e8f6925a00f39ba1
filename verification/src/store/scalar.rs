//! YAML plain and double-quoted scalars, and the front matter delimiters.
use vstd::prelude::*;

use crate::error::strs;
use crate::text::{
    ascii_lower, ascii_lower_exec, chars_of, contains, contains_exec, find_exec, find_from,
    is_whitespace, is_ws, lemma_find_from, matches_at, push_char, push_chars,
    push_str, slice_chars, string_of, str_eq,
};

verus! {

/// A character that may not start a YAML plain scalar.
pub open spec fn is_indicator(c: char) -> bool {
    c == '.' || c == '-' || c == '?' || c == ':' || c == '&' || c == '*' || c == '!' || c == '|'
        || c == '>' || c == '\'' || c == '"' || c == '%' || c == '@' || c == '`' || c == '{' || c
        == '[' || c == ',' || c == '#'
}

/// A word YAML would read as a boolean or null.
pub open spec fn is_reserved_word(l: Seq<char>) -> bool {
    l == "true"@ || l == "false"@ || l == "null"@ || l == "yes"@ || l == "no"@ || l == "on"@ || l
        == "off"@ || l == "~"@
}

/// A character of a numeric literal.
pub open spec fn is_number_char(c: char) -> bool {
    ('0' <= c && c <= '9') || c == '.' || c == '+' || c == '-' || c == 'e' || c == 'E'
}

/// Text YAML might read as a number: only digits, `.`, `+`, `-`, `e`, `E`, with
/// at least one digit.
pub open spec fn looks_like_number(s: Seq<char>) -> bool {
    &&& s.len() > 0
    &&& forall|i: int| 0 <= i < s.len() ==> is_number_char(#[trigger] s[i])
    &&& exists|i: int| 0 <= i < s.len() && '0' <= #[trigger] s[i] && s[i] <= '9'
}

/// A string that cannot be written as a plain scalar.
pub open spec fn needs_quotes(s: Seq<char>) -> bool {
    ||| s.len() == 0
    ||| is_ws(s[0]) || is_indicator(s[0])
    ||| s.last() == ' ' || s.last() == '\t'
    ||| s.contains('\n') || s.contains('\r') || contains(s, ": "@) || s.contains('#')
    ||| is_reserved_word(ascii_lower(s))
    ||| looks_like_number(s)
}

/// The double-quoted escape of one character.
pub open spec fn escape_char(c: char) -> Seq<char> {
    if c == '\\' {
        seq!['\\', '\\']
    } else if c == '"' {
        seq!['\\', '"']
    } else if c == '\n' {
        seq!['\\', 'n']
    } else if c == '\r' {
        seq!['\\', 'r']
    } else {
        seq![c]
    }
}

/// `s` with `\`, `"`, newline and carriage return escaped.
pub open spec fn escape_quoted(s: Seq<char>) -> Seq<char>
    decreases s.len(),
{
    if s.len() == 0 {
        seq![]
    } else {
        escape_quoted(s.drop_last()) + escape_char(s.last())
    }
}

/// `s` as a YAML scalar: plain when that reads back as the same string, otherwise
/// double-quoted.
pub open spec fn yaml_scalar_of(s: Seq<char>) -> Seq<char> {
    if needs_quotes(s) {
        seq!['"'] + escape_quoted(s) + seq!['"']
    } else {
        s
    }
}

fn is_indicator_exec(c: char) -> (r: bool)
    ensures
        r == is_indicator(c),
{
    c == '.' || c == '-' || c == '?' || c == ':' || c == '&' || c == '*' || c == '!' || c == '|'
        || c == '>' || c == '\'' || c == '"' || c == '%' || c == '@' || c == '`' || c == '{' || c
        == '[' || c == ',' || c == '#'
}

fn has_char(v: &[char], c: char) -> (r: bool)
    ensures
        r == v@.contains(c),
{
    let mut i: usize = 0;
    while i < v.len()
        invariant
            i <= v@.len(),
            forall|k: int| 0 <= k < i ==> v@[k] != c,
        decreases v@.len() - i,
    {
        if v[i] == c {
            assert(v@[i as int] == c);
            return true;
        }
        i = i + 1;
    }
    false
}

fn is_reserved_word_exec(l: &[char]) -> (r: bool)
    ensures
        r == is_reserved_word(l@),
{
    let s = string_of(l);
    let t = s.as_str();
    str_eq(t, "true") || str_eq(t, "false") || str_eq(t, "null") || str_eq(t, "yes") || str_eq(
        t,
        "no",
    ) || str_eq(t, "on") || str_eq(t, "off") || str_eq(t, "~")
}

/// Whether `s` might be read as a number.
pub fn looks_like_number_exec(v: &[char]) -> (r: bool)
    ensures
        r == looks_like_number(v@),
{
    if v.len() == 0 {
        return false;
    }
    let mut digit = false;
    let mut i: usize = 0;
    while i < v.len()
        invariant
            i <= v@.len(),
            forall|k: int| 0 <= k < i ==> is_number_char(#[trigger] v@[k]),
            digit <==> exists|k: int| 0 <= k < i && '0' <= #[trigger] v@[k] && v@[k] <= '9',
        decreases v@.len() - i,
    {
        let c = v[i];
        let is_digit = '0' <= c && c <= '9';
        if !(is_digit || c == '.' || c == '+' || c == '-' || c == 'e' || c == 'E') {
            assert(!is_number_char(v@[i as int]));
            return false;
        }
        if is_digit {
            assert('0' <= v@[i as int] && v@[i as int] <= '9');
            digit = true;
        }
        i = i + 1;
    }
    digit
}

/// Whether `s` must be quoted.
pub fn needs_quotes_exec(v: &[char]) -> (r: bool)
    ensures
        r == needs_quotes(v@),
{
    if v.len() == 0 {
        return true;
    }
    let first = v[0];
    if is_whitespace(first) || is_indicator_exec(first) {
        return true;
    }
    let last = v[v.len() - 1];
    if last == ' ' || last == '\t' {
        return true;
    }
    let colon_space = chars_of(": ");
    if has_char(v, '\n') || has_char(v, '\r') || contains_exec(v, colon_space.as_slice())
        || has_char(v, '#') {
        return true;
    }
    let lower = ascii_lower_exec(v);
    is_reserved_word_exec(lower.as_slice()) || looks_like_number_exec(v)
}

/// Appends the double-quoted escape of `v`.
fn push_escaped(out: &mut String, v: &[char])
    ensures
        final(out)@ == old(out)@ + escape_quoted(v@),
{
    let ghost start = out@;
    let mut i: usize = 0;
    while i < v.len()
        invariant
            i <= v@.len(),
            out@ == start + escape_quoted(v@.take(i as int)),
        decreases v@.len() - i,
    {
        let c = v[i];
        assert(v@.take(i + 1).drop_last() =~= v@.take(i as int));
        if c == '\\' || c == '"' || c == '\n' || c == '\r' {
            push_char(out, '\\');
            if c == '\n' {
                push_char(out, 'n');
            } else if c == '\r' {
                push_char(out, 'r');
            } else {
                push_char(out, c);
            }
        } else {
            push_char(out, c);
        }
        i = i + 1;
        assert(out@ =~= start + escape_quoted(v@.take(i as int)));
    }
    assert(v@.take(i as int) =~= v@);
}

/// Appends `s` as a YAML scalar.
pub fn push_yaml_scalar(out: &mut String, s: &str)
    ensures
        final(out)@ == old(out)@ + yaml_scalar_of(s@),
{
    let v = chars_of(s);
    if needs_quotes_exec(v.as_slice()) {
        push_char(out, '"');
        push_escaped(out, v.as_slice());
        push_char(out, '"');
    } else {
        push_chars(out, v.as_slice());
    }
}

/// `s` as a YAML scalar.
pub fn yaml_scalar(s: &str) -> (r: String)
    ensures
        r@ == yaml_scalar_of(s@),
{
    let mut out = String::new();
    push_yaml_scalar(&mut out, s);
    out
}

/// One line per item: the prefix, then the item as a YAML scalar.
pub open spec fn list_lines(prefix: Seq<char>, items: Seq<Seq<char>>) -> Seq<char>
    decreases items.len(),
{
    if items.len() == 0 {
        seq![]
    } else {
        list_lines(prefix, items.drop_last()) + prefix + yaml_scalar_of(items.last()) + "\n"@
    }
}

/// Appends one line per item: the prefix, then the item as a YAML scalar.
pub fn push_list(out: &mut String, prefix: &str, items: &[String])
    ensures
        final(out)@ == old(out)@ + list_lines(prefix@, strs(items@)),
{
    let ghost head = out@;
    let ghost ls = strs(items@);
    let mut i: usize = 0;
    assert(ls.take(0) =~= Seq::<Seq<char>>::empty());
    while i < items.len()
        invariant
            i <= items@.len(),
            ls == strs(items@),
            out@ == head + list_lines(prefix@, ls.take(i as int)),
        decreases items@.len() - i,
    {
        push_str(out, prefix);
        push_yaml_scalar(out, items[i].as_str());
        push_str(out, "\n");
        assert(ls.take(i + 1).drop_last() =~= ls.take(i as int));
        i = i + 1;
        assert(out@ =~= head + list_lines(prefix@, ls.take(i as int)));
    }
    assert(ls.take(i as int) =~= ls);
}

/// `s` without one trailing `\r\n`, or else one trailing `\n`.
pub open spec fn strip_one_trailing_newline_of(s: Seq<char>) -> Seq<char> {
    if s.len() >= 2 && s[s.len() - 2] == '\r' && s.last() == '\n' {
        s.subrange(0, s.len() - 2)
    } else if s.len() >= 1 && s.last() == '\n' {
        s.drop_last()
    } else {
        s
    }
}

/// `v` without one trailing line break.
pub fn strip_one_trailing_newline(v: &[char]) -> (r: Vec<char>)
    ensures
        r@ == strip_one_trailing_newline_of(v@),
{
    let n = v.len();
    if n >= 2 && v[n - 2] == '\r' && v[n - 1] == '\n' {
        slice_chars(v, 0, n - 2)
    } else if n >= 1 && v[n - 1] == '\n' {
        slice_chars(v, 0, n - 1)
    } else {
        slice_chars(v, 0, n)
    }
}

/// `s` without a leading byte order mark.
pub open spec fn strip_bom(s: Seq<char>) -> Seq<char> {
    if s.len() > 0 && s[0] == '\u{feff}' {
        s.drop_first()
    } else {
        s
    }
}

/// The text after the opening `---` line, if the text opens with one.
pub open spec fn after_open_delimiter(s: Seq<char>) -> Option<Seq<char>> {
    if s.len() >= 5 && s.subrange(0, 5) == "---\r\n"@ {
        Some(s.skip(5))
    } else if s.len() >= 4 && s.subrange(0, 4) == "---\n"@ {
        Some(s.skip(4))
    } else {
        None
    }
}

/// The YAML front matter and the body of a document: the text must open with a
/// `---` line (after an optional byte order mark) and the front matter ends at the
/// first `\n---\r\n`, or, when there is none, at the first `\n---\n`. One trailing
/// line break is dropped from the body.
pub open spec fn frontmatter_of(text: Seq<char>) -> Option<(Seq<char>, Seq<char>)> {
    match after_open_delimiter(strip_bom(text)) {
        None => None,
        Some(rest) => match find_from(rest, "\n---\r\n"@, 0) {
            Some(i) => Some((rest.subrange(0, i), strip_one_trailing_newline_of(rest.skip(i + 6)))),
            None => match find_from(rest, "\n---\n"@, 0) {
                Some(i) => Some(
                    (rest.subrange(0, i), strip_one_trailing_newline_of(rest.skip(i + 5))),
                ),
                None => None,
            },
        },
    }
}

/// Splits a document into its YAML front matter and its body.
pub fn split_frontmatter(text: &str) -> (r: Option<(String, String)>)
    ensures
        match r {
            Some((yaml, body)) => frontmatter_of(text@) == Some((yaml@, body@)),
            None => frontmatter_of(text@) is None,
        },
{
    proof {
        reveal_strlit("---\r\n");
        reveal_strlit("---\n");
        reveal_strlit("\n---\r\n");
        reveal_strlit("\n---\n");
    }
    let all = chars_of(text);
    let start: usize = if all.len() > 0 && all[0] == '\u{feff}' {
        1
    } else {
        0
    };
    let s = slice_chars(all.as_slice(), start, all.len());
    assert(s@ == strip_bom(text@)) by {
        if start == 1 {
            assert(s@ =~= text@.drop_first());
        } else {
            assert(s@ =~= text@);
        }
    }
    let open_crlf = chars_of("---\r\n");
    let open_lf = chars_of("---\n");
    let skip: usize = if crate::text::matches_at_exec(s.as_slice(), 0, open_crlf.as_slice()) {
        5
    } else if crate::text::matches_at_exec(s.as_slice(), 0, open_lf.as_slice()) {
        4
    } else {
        return None;
    };
    let rest = slice_chars(s.as_slice(), skip, s.len());
    assert(after_open_delimiter(s@) == Some(rest@)) by {
        assert(rest@ =~= s@.skip(skip as int));
    }
    let close_crlf = chars_of("\n---\r\n");
    let close_lf = chars_of("\n---\n");
    match find_exec(rest.as_slice(), close_crlf.as_slice(), 0) {
        Some(i) => {
            proof {
                lemma_find_from(rest@, close_crlf@, 0);
            }
            let yaml = slice_chars(rest.as_slice(), 0, i);
            let tail = slice_chars(rest.as_slice(), i + 6, rest.len());
            assert(tail@ =~= rest@.skip(i + 6));
            let body = strip_one_trailing_newline(tail.as_slice());
            Some((string_of(yaml.as_slice()), string_of(body.as_slice())))
        },
        None => match find_exec(rest.as_slice(), close_lf.as_slice(), 0) {
            Some(i) => {
                proof {
                    lemma_find_from(rest@, close_lf@, 0);
                }
                let yaml = slice_chars(rest.as_slice(), 0, i);
                let tail = slice_chars(rest.as_slice(), i + 5, rest.len());
                assert(tail@ =~= rest@.skip(i + 5));
                let body = strip_one_trailing_newline(tail.as_slice());
                Some((string_of(yaml.as_slice()), string_of(body.as_slice())))
            },
            None => None,
        },
    }
}

/// `s` holds no line break.
pub open spec fn no_line_break(s: Seq<char>) -> bool {
    forall|i: int| 0 <= i < s.len() ==> s[i] != '\n'
}

/// Whole lines none of which starts with `-`: empty, or starting with something
/// other than `-` and ending with a line break, with no line break inside followed
/// by `-`. Such text holds no `---` line.
pub open spec fn dash_free_lines(s: Seq<char>) -> bool {
    &&& s.len() > 0 ==> s[0] != '-' && s.last() == '\n'
    &&& forall|k: int| 0 <= k < s.len() - 1 && #[trigger] s[k] == '\n' ==> s[k + 1] != '-'
}

/// A body that reads back unchanged from after the front matter: it ends with
/// neither a line break nor a carriage return, and after no line break in it, nor
/// at its start, comes a `---` line ended by `\r\n`.
pub open spec fn body_reads_back(body: Seq<char>) -> bool {
    &&& !(body.len() > 0 && (body.last() == '\n' || body.last() == '\r'))
    &&& !contains("\n"@ + body, "\n---\r\n"@)
}

/// Lines without a leading `-` stay so when put one after another.
pub proof fn lemma_dash_free_concat(a: Seq<char>, b: Seq<char>)
    requires
        dash_free_lines(a),
        dash_free_lines(b),
    ensures
        dash_free_lines(a + b),
{
    let c = a + b;
    assert forall|k: int| 0 <= k < c.len() - 1 && #[trigger] c[k] == '\n' implies c[k + 1] != '-' by {
        if k < a.len() - 1 {
            assert(c[k] == a[k] && c[k + 1] == a[k + 1]);
        } else if k == a.len() - 1 {
            assert(c[k + 1] == b[0]);
        } else {
            assert(c[k] == b[k - a.len()]);
            assert(c[k + 1] == b[k + 1 - a.len()]);
        }
    }
    if a.len() == 0 {
        assert(c =~= b);
    }
    if b.len() > 0 {
        assert(c.last() == b.last());
    }
}

/// A line made of a prefix that does not start with `-` and a text, neither with a
/// line break, then a line break.
pub proof fn lemma_line_dash_free(prefix: Seq<char>, x: Seq<char>)
    requires
        prefix.len() > 0,
        prefix[0] != '-',
        no_line_break(prefix),
        no_line_break(x),
    ensures
        dash_free_lines(prefix + x + "\n"@),
{
    reveal_strlit("\n");
    let l = prefix + x + "\n"@;
    assert forall|k: int| 0 <= k < l.len() - 1 && #[trigger] l[k] == '\n' implies l[k + 1] != '-' by {
        if k < prefix.len() {
            assert(l[k] == prefix[k]);
        } else {
            assert(l[k] == x[k - prefix.len()]);
        }
    }
}

/// A YAML scalar never spans lines.
pub proof fn lemma_scalar_one_line(s: Seq<char>)
    ensures
        no_line_break(yaml_scalar_of(s)),
{
    if needs_quotes(s) {
        lemma_escape_one_line(s);
        let q = seq!['"'] + escape_quoted(s) + seq!['"'];
        assert forall|i: int| 0 <= i < q.len() implies q[i] != '\n' by {
            if 0 < i < q.len() - 1 {
                assert(q[i] == escape_quoted(s)[i - 1]);
            }
        }
    } else {
        assert forall|i: int| 0 <= i < s.len() implies s[i] != '\n' by {
            if s[i] == '\n' {
                assert(s.contains('\n'));
            }
        }
    }
}

proof fn lemma_escape_one_line(s: Seq<char>)
    ensures
        no_line_break(escape_quoted(s)),
    decreases s.len(),
{
    if s.len() > 0 {
        lemma_escape_one_line(s.drop_last());
        let a = escape_quoted(s.drop_last());
        let b = escape_char(s.last());
        assert forall|i: int| 0 <= i < (a + b).len() implies (a + b)[i] != '\n' by {
            if i < a.len() {
                assert((a + b)[i] == a[i]);
            } else {
                assert((a + b)[i] == b[i - a.len()]);
            }
        }
    }
}

/// List lines whose prefix does not start with `-` have no leading `-`.
pub proof fn lemma_list_lines_dash_free(prefix: Seq<char>, items: Seq<Seq<char>>)
    requires
        prefix.len() > 0,
        prefix[0] != '-',
        no_line_break(prefix),
    ensures
        dash_free_lines(list_lines(prefix, items)),
    decreases items.len(),
{
    if items.len() > 0 {
        let rest = list_lines(prefix, items.drop_last());
        let line = prefix + yaml_scalar_of(items.last()) + "\n"@;
        lemma_list_lines_dash_free(prefix, items.drop_last());
        lemma_scalar_one_line(items.last());
        lemma_line_dash_free(prefix, yaml_scalar_of(items.last()));
        lemma_dash_free_concat(rest, line);
        assert(list_lines(prefix, items) =~= rest + line);
    }
}

/// Front matter lines without a leading `-` between `---` lines, then a body that
/// reads back, split back into those lines (without their last line break) and the
/// body.
pub proof fn lemma_split_back(lines: Seq<char>, body: Seq<char>)
    requires
        lines.len() > 0,
        dash_free_lines(lines),
        body_reads_back(body),
    ensures
        frontmatter_of("---\n"@ + lines + "---\n"@ + (if body.len() > 0 && body.last() == '\n' {
            body
        } else {
            body + "\n"@
        })) == Some((lines.drop_last(), body)),
{
    reveal_strlit("---\n");
    reveal_strlit("---\r\n");
    reveal_strlit("\n---\r\n");
    reveal_strlit("\n---\n");
    reveal_strlit("\n");
    let p1 = "\n---\r\n"@;
    let p2 = "\n---\n"@;
    let wb = body + "\n"@;
    let text = "---\n"@ + lines + "---\n"@ + wb;
    let rest = lines + "---\n"@ + wb;
    let n = lines.len() as int;
    assert(text[0] == '-');
    assert(strip_bom(text) == text);
    assert(text.subrange(0, 4) =~= "---\n"@);
    assert(text.subrange(0, 5)[3] == '\n');
    assert(text.subrange(0, 5) != "---\r\n"@);
    assert(text.skip(4) =~= rest);
    assert(after_open_delimiter(text) == Some(rest));
    let tail = "\n"@ + body;
    reveal_strlit("---");
    assert forall|j: int| 0 <= j implies !#[trigger] matches_at(rest, j, p1) by {
        if matches_at(rest, j, p1) {
            let m = rest.subrange(j, j + 6);
            assert(m[0] == rest[j]);
            if j < n - 1 {
                assert(rest[j] == lines[j]);
                assert(rest[j + 1] == lines[j + 1]);
                assert(m[1] == rest[j + 1]);
            } else if j == n - 1 {
                assert(rest[j + 4] == '\n');
                assert(m[4] == rest[j + 4]);
            } else if j < n + 3 {
                assert(rest[j] == '-');
            } else {
                let k = j - (n + 3);
                if j + 6 <= rest.len() - 1 {
                    let pre = lines + "---"@;
                    assert(rest =~= pre + tail + "\n"@);
                    assert(pre.len() == n + 3);
                    assert(tail.subrange(k, k + 6) =~= m);
                    assert(matches_at(tail, k, p1));
                } else {
                    assert(j + 6 == rest.len());
                    assert(m[4] == rest[rest.len() - 2]);
                    assert(body.len() > 0);
                    assert(rest[rest.len() - 2] == body.last());
                }
            }
        }
    }
    lemma_find_from(rest, p1, 0);
    assert(rest.subrange(n - 1, n + 4) =~= p2);
    assert(matches_at(rest, n - 1, p2));
    assert forall|j: int| 0 <= j < n - 1 implies !#[trigger] matches_at(rest, j, p2) by {
        if matches_at(rest, j, p2) {
            let m = rest.subrange(j, j + 5);
            assert(m[0] == rest[j] && rest[j] == lines[j]);
            assert(m[1] == rest[j + 1] && rest[j + 1] == lines[j + 1]);
        }
    }
    lemma_find_from(rest, p2, 0);
    assert(rest.subrange(0, n - 1) =~= lines.drop_last());
    assert(rest.skip(n + 4) =~= wb);
    assert(wb.drop_last() =~= body);
    assert(wb[wb.len() - 2] == body.last() || body.len() == 0);
}

proof fn lemma_escape_len(s: Seq<char>)
    ensures
        escape_quoted(s).len() >= s.len(),
    decreases s.len(),
{
    if s.len() > 0 {
        lemma_escape_len(s.drop_last());
    }
}

/// A scalar is written plain only when a YAML reader takes it back as the same
/// string: a plain scalar is non-empty; holds no `#` (which would open a comment),
/// no line break, no carriage return and no `": "`; starts with neither whitespace
/// nor a YAML indicator; ends with neither a space nor a tab; and is not a word read
/// as a boolean or null, nor a number. Every other string is written
/// double-quoted, with its backslashes, quotes, line breaks and carriage returns
/// escaped.
pub proof fn lemma_plain_only_when_safe(s: Seq<char>)
    ensures
        yaml_scalar_of(s) == s ==> {
            &&& s.len() > 0
            &&& !s.contains('#')
            &&& !s.contains('\n')
            &&& !s.contains('\r')
            &&& !contains(s, ": "@)
            &&& !is_ws(s[0])
            &&& !(s[0] == '.' || s[0] == '-' || s[0] == '?' || s[0] == ':' || s[0] == '&' || s[0]
                == '*' || s[0] == '!' || s[0] == '|' || s[0] == '>' || s[0] == '\'' || s[0] == '"'
                || s[0] == '%' || s[0] == '@' || s[0] == '`' || s[0] == '{' || s[0] == '['
                || s[0] == ',' || s[0] == '#')
            &&& s.last() != ' ' && s.last() != '\t'
            &&& !(ascii_lower(s) == "true"@ || ascii_lower(s) == "false"@ || ascii_lower(s)
                == "null"@ || ascii_lower(s) == "yes"@ || ascii_lower(s) == "no"@ || ascii_lower(s)
                == "on"@ || ascii_lower(s) == "off"@ || ascii_lower(s) == "~"@)
            &&& !(exists|i: int| 0 <= i < s.len() && '0' <= #[trigger] s[i] && s[i] <= '9')
                || exists|i: int|
                0 <= i < s.len() && !(('0' <= #[trigger] s[i] && s[i] <= '9') || s[i] == '.'
                    || s[i] == '+' || s[i] == '-' || s[i] == 'e' || s[i] == 'E')
        },
        yaml_scalar_of(s) != s ==> yaml_scalar_of(s) == seq!['"'] + escape_quoted(s) + seq!['"'],
        s.contains('#') || s.contains('\n') || s.contains('\r') || contains(s, ": "@) || s.len()
            == 0 ==> yaml_scalar_of(s) == seq!['"'] + escape_quoted(s) + seq!['"'],
{
    lemma_escape_len(s);
    if needs_quotes(s) {
        assert(yaml_scalar_of(s).len() == escape_quoted(s).len() + 2);
        assert(yaml_scalar_of(s) != s);
    }
}

/// The character a backslash escape `\\c` stands for in a double-quoted scalar.
pub open spec fn unescaped(c: char) -> char {
    if c == 'n' {
        '\n'
    } else if c == 'r' {
        '\r'
    } else {
        c
    }
}

/// How a YAML reader reads the inside of a double-quoted scalar written here: a
/// backslash and the character after it stand for one character; any other
/// character stands for itself.
pub open spec fn read_quoted(q: Seq<char>) -> Seq<char>
    decreases q.len(),
{
    if q.len() == 0 {
        seq![]
    } else if q[0] == '\\' && q.len() >= 2 {
        seq![unescaped(q[1])] + read_quoted(q.skip(2))
    } else {
        seq![q[0]] + read_quoted(q.drop_first())
    }
}

proof fn lemma_escape_concat(a: Seq<char>, b: Seq<char>)
    ensures
        escape_quoted(a + b) == escape_quoted(a) + escape_quoted(b),
    decreases b.len(),
{
    if b.len() == 0 {
        assert(a + b =~= a);
        assert(escape_quoted(a) + escape_quoted(b) =~= escape_quoted(a));
    } else {
        lemma_escape_concat(a, b.drop_last());
        assert((a + b).drop_last() =~= a + b.drop_last());
        assert((a + b).last() == b.last());
    }
}

proof fn lemma_read_escape_char(c: char, rest: Seq<char>)
    ensures
        read_quoted(escape_char(c) + rest) == seq![c] + read_quoted(rest),
{
    let e = escape_char(c) + rest;
    if c == '\\' || c == '"' || c == '\n' || c == '\r' {
        assert(e.skip(2) =~= rest);
    } else {
        assert(e.drop_first() =~= rest);
    }
}

proof fn lemma_read_escape(s: Seq<char>)
    ensures
        read_quoted(escape_quoted(s)) == s,
    decreases s.len(),
{
    if s.len() > 0 {
        let t = s.drop_first();
        assert(s =~= seq![s[0]] + t);
        lemma_escape_concat(seq![s[0]], t);
        assert(seq![s[0]].drop_last() =~= Seq::<char>::empty());
        assert(escape_quoted(Seq::<char>::empty()) =~= Seq::<char>::empty());
        assert(escape_quoted(seq![s[0]]) =~= Seq::<char>::empty() + escape_char(s[0]));
        assert(escape_quoted(seq![s[0]]) =~= escape_char(s[0]));
        lemma_read_escape_char(s[0], escape_quoted(t));
        lemma_read_escape(t);
    }
}

/// Every scalar reads back as the string it was written from: a plain one is the
/// string itself, and a double-quoted one holds, between its quotes, text that reads
/// back as the string.
pub proof fn lemma_scalar_reads_back(s: Seq<char>)
    ensures
        yaml_scalar_of(s) == s || {
            let w = yaml_scalar_of(s);
            &&& w.len() >= 2
            &&& w[0] == '"' && w.last() == '"'
            &&& read_quoted(w.subrange(1, w.len() - 1)) == s
        },
{
    if needs_quotes(s) {
        let w = yaml_scalar_of(s);
        assert(w.subrange(1, w.len() - 1) =~= escape_quoted(s));
        lemma_read_escape(s);
    }
}

} // verus!
