//! Character-level text operations on `Seq<char>` models: whitespace, trimming,
//! substring search, line splitting, splitting on a separator, replacement and
//! joining. Each executable function is proved against the spec of the same name.
use vstd::prelude::*;

verus! {

/// The Unicode `White_Space` property.
pub open spec fn is_ws(c: char) -> bool {
    ||| ('\u{9}' <= c && c <= '\u{d}')
    ||| c == ' '
    ||| c == '\u{85}'
    ||| c == '\u{a0}'
    ||| c == '\u{1680}'
    ||| ('\u{2000}' <= c && c <= '\u{200a}')
    ||| c == '\u{2028}'
    ||| c == '\u{2029}'
    ||| c == '\u{202f}'
    ||| c == '\u{205f}'
    ||| c == '\u{3000}'
}

/// Whether `c` has the Unicode `White_Space` property.
pub fn is_whitespace(c: char) -> (r: bool)
    ensures
        r == is_ws(c),
{
    ('\u{9}' <= c && c <= '\u{d}') || c == ' ' || c == '\u{85}' || c == '\u{a0}' || c == '\u{1680}'
        || ('\u{2000}' <= c && c <= '\u{200a}') || c == '\u{2028}' || c == '\u{2029}' || c
        == '\u{202f}' || c == '\u{205f}' || c == '\u{3000}'
}

/// `s` without its leading whitespace.
pub open spec fn trim_start(s: Seq<char>) -> Seq<char>
    decreases s.len(),
{
    if s.len() > 0 && is_ws(s[0]) {
        trim_start(s.drop_first())
    } else {
        s
    }
}

/// `s` without its trailing whitespace.
pub open spec fn trim_end(s: Seq<char>) -> Seq<char>
    decreases s.len(),
{
    if s.len() > 0 && is_ws(s.last()) {
        trim_end(s.drop_last())
    } else {
        s
    }
}

/// `s` without leading and trailing whitespace.
pub open spec fn trim(s: Seq<char>) -> Seq<char> {
    trim_end(trim_start(s))
}

/// The characters of a string slice, in order.
pub fn chars_of(s: &str) -> (v: Vec<char>)
    ensures
        v@ == s@,
{
    let mut v: Vec<char> = Vec::new();
    for c in it: s.chars()
        invariant
            v@ == it.seq().take(it.index() as int),
            it.seq() == s@,
    {
        v.push(c);
    }
    v
}

/// `String::push`: appends `c` at the end. The contract claims that the new text
/// is the old text followed by `c`.
#[verifier::external_body]
pub(crate) fn push_char(s: &mut String, c: char)
    ensures
        final(s)@ == old(s)@.push(c),
{
    s.push(c);
}

/// Appends a character sequence to a `String`.
pub fn push_chars(s: &mut String, v: &[char])
    ensures
        final(s)@ == old(s)@ + v@,
{
    let ghost start = s@;
    for i in 0..v.len()
        invariant
            s@ == start + v@.take(i as int),
    {
        push_char(s, v[i]);
        assert(v@.take(i + 1) =~= v@.take(i as int).push(v@[i as int]));
    }
    assert(v@.take(v@.len() as int) =~= v@);
}

/// A `String` holding exactly the given characters.
pub fn string_of(v: &[char]) -> (s: String)
    ensures
        s@ == v@,
{
    let mut s = String::new();
    push_chars(&mut s, v);
    s
}

/// Appends a string slice to a `String`.
pub fn push_str(s: &mut String, t: &str)
    ensures
        final(s)@ == old(s)@ + t@,
{
    s.append(t);
}

/// Whether two string slices hold the same characters.
pub fn str_eq(a: &str, b: &str) -> (r: bool)
    ensures
        r == (a@ == b@),
{
    String::from_str(a) == String::from_str(b)
}

/// A copy of the characters `v[from..to]`.
pub fn slice_chars(v: &[char], from: usize, to: usize) -> (r: Vec<char>)
    requires
        from <= to <= v@.len(),
    ensures
        r@ == v@.subrange(from as int, to as int),
{
    let mut r: Vec<char> = Vec::new();
    let mut i = from;
    while i < to
        invariant
            from <= i <= to <= v@.len(),
            r@ == v@.subrange(from as int, i as int),
        decreases to - i,
    {
        r.push(v[i]);
        assert(v@.subrange(from as int, i + 1) =~= v@.subrange(from as int, i as int).push(
            v@[i as int],
        ));
        i = i + 1;
    }
    r
}

proof fn lemma_trim_start_skip(s: Seq<char>, k: int)
    requires
        0 <= k < s.len(),
        is_ws(s[k]),
    ensures
        trim_start(s.skip(k)) == trim_start(s.skip(k + 1)),
{
    assert(s.skip(k).drop_first() =~= s.skip(k + 1));
}

proof fn lemma_trim_end_take(s: Seq<char>, k: int)
    requires
        0 < k <= s.len(),
        is_ws(s[k - 1]),
    ensures
        trim_end(s.take(k)) == trim_end(s.take(k - 1)),
{
    assert(s.take(k).drop_last() =~= s.take(k - 1));
}

/// The first character left by `trim_start` is not whitespace.
proof fn lemma_trim_start_head(s: Seq<char>)
    ensures
        trim_start(s).len() > 0 ==> !is_ws(trim_start(s)[0]),
    decreases s.len(),
{
    if s.len() > 0 && is_ws(s[0]) {
        lemma_trim_start_head(s.drop_first());
    }
}

/// `trim_end` keeps a prefix whose last character is not whitespace.
proof fn lemma_trim_end_prefix(s: Seq<char>)
    ensures
        trim_end(s).len() <= s.len(),
        trim_end(s) == s.take(trim_end(s).len() as int),
        trim_end(s).len() > 0 ==> !is_ws(trim_end(s).last()),
    decreases s.len(),
{
    if s.len() > 0 && is_ws(s.last()) {
        lemma_trim_end_prefix(s.drop_last());
        assert(s.drop_last().take(trim_end(s).len() as int) =~= s.take(trim_end(s).len() as int));
    } else {
        assert(s.take(s.len() as int) =~= s);
    }
}

/// Trimming twice is trimming once.
pub proof fn lemma_trim_idempotent(s: Seq<char>)
    ensures
        trim(trim(s)) == trim(s),
{
    let x = trim_start(s);
    let t = trim_end(x);
    lemma_trim_start_head(s);
    lemma_trim_end_prefix(x);
    if t.len() > 0 {
        assert(t[0] == x[0]);
        assert(trim_start(t) == t);
        lemma_trim_end_prefix(t);
        assert(trim_end(t) == t);
    }
}

/// Bounds `(a, b)` such that `v[a..b]` is `v` with leading and trailing whitespace removed.
pub fn trim_bounds(v: &[char]) -> (r: (usize, usize))
    ensures
        r.0 <= r.1 <= v@.len(),
        v@.subrange(r.0 as int, r.1 as int) == trim(v@),
        trim_start(v@) == v@.skip(r.0 as int),
{
    let mut a: usize = 0;
    assert(v@.skip(0) =~= v@);
    while a < v.len() && is_whitespace(v[a])
        invariant
            a <= v@.len(),
            trim_start(v@) == trim_start(v@.skip(a as int)),
        decreases v@.len() - a,
    {
        proof {
            lemma_trim_start_skip(v@, a as int);
        }
        a = a + 1;
    }
    assert(trim_start(v@.skip(a as int)) == v@.skip(a as int));
    let ghost t = v@.skip(a as int);
    let mut b: usize = v.len();
    assert(t.take(b - a) =~= t);
    while b > a && is_whitespace(v[b - 1])
        invariant
            a <= b <= v@.len(),
            t == v@.skip(a as int),
            trim_end(t) == trim_end(t.take(b - a)),
        decreases b,
    {
        proof {
            lemma_trim_end_take(t, b - a);
        }
        b = b - 1;
    }
    assert(trim_end(t.take(b - a)) == t.take(b - a));
    assert(t.take(b - a) =~= v@.subrange(a as int, b as int));
    (a, b)
}

/// `v` without leading and trailing whitespace.
pub fn trim_chars(v: &[char]) -> (r: Vec<char>)
    ensures
        r@ == trim(v@),
{
    let (a, b) = trim_bounds(v);
    slice_chars(v, a, b)
}

/// `v` without trailing whitespace.
pub fn trim_end_chars(v: &[char]) -> (r: Vec<char>)
    ensures
        r@ == trim_end(v@),
{
    let mut b: usize = v.len();
    assert(v@.take(b as int) =~= v@);
    while b > 0 && is_whitespace(v[b - 1])
        invariant
            b <= v@.len(),
            trim_end(v@) == trim_end(v@.take(b as int)),
        decreases b,
    {
        proof {
            lemma_trim_end_take(v@, b as int);
        }
        b = b - 1;
    }
    assert(v@.take(b as int) =~= v@.subrange(0, b as int));
    slice_chars(v, 0, b)
}

/// A `String` copy of `s` without leading and trailing whitespace.
pub fn trim_str(s: &str) -> (r: String)
    ensures
        r@ == trim(s@),
{
    let v = chars_of(s);
    let t = trim_chars(v.as_slice());
    string_of(t.as_slice())
}

/// `p` occurs in `s` at index `i`.
pub open spec fn matches_at(s: Seq<char>, i: int, p: Seq<char>) -> bool {
    0 <= i && i + p.len() <= s.len() && s.subrange(i, i + p.len()) == p
}

/// `p` occurs somewhere in `s`.
pub open spec fn contains(s: Seq<char>, p: Seq<char>) -> bool {
    exists|i: int| matches_at(s, i, p)
}

/// The first index at or after `i` where `p` occurs in `s`.
pub open spec fn find_from(s: Seq<char>, p: Seq<char>, i: int) -> Option<int>
    decreases s.len() + 1 - i,
{
    if i < 0 || i + p.len() > s.len() {
        None
    } else if matches_at(s, i, p) {
        Some(i)
    } else {
        find_from(s, p, i + 1)
    }
}

/// What `find_from` returns is the first occurrence.
pub proof fn lemma_find_from(s: Seq<char>, p: Seq<char>, i: int)
    requires
        0 <= i,
    ensures
        match find_from(s, p, i) {
            Some(k) => i <= k && matches_at(s, k, p) && forall|j: int|
                i <= j < k ==> !#[trigger] matches_at(s, j, p),
            None => forall|j: int| i <= j ==> !#[trigger] matches_at(s, j, p),
        },
    decreases s.len() + 1 - i,
{
    if i + p.len() > s.len() {
    } else if matches_at(s, i, p) {
    } else {
        lemma_find_from(s, p, i + 1);
    }
}

/// `p` occurs in `s` exactly when searching from the start finds it.
pub proof fn lemma_contains_find(s: Seq<char>, p: Seq<char>)
    ensures
        contains(s, p) <==> find_from(s, p, 0) is Some,
{
    lemma_find_from(s, p, 0);
    if let Some(k) = find_from(s, p, 0) {
        assert(matches_at(s, k, p));
    }
}

/// Whether `p` occurs in `v` at index `i`.
pub fn matches_at_exec(v: &[char], i: usize, p: &[char]) -> (r: bool)
    ensures
        r == matches_at(v@, i as int, p@),
{
    if i > v.len() || p.len() > v.len() - i {
        return false;
    }
    let mut j: usize = 0;
    while j < p.len()
        invariant
            i <= v@.len(),
            p@.len() <= v@.len() - i,
            i + p@.len() <= v@.len(),
            i + p.len() <= v.len(),
            j <= p@.len(),
            forall|k: int| 0 <= k < j ==> v@[i + k] == p@[k],
        decreases p@.len() - j,
    {
        if v[i + j] != p[j] {
            assert(v@.subrange(i as int, i + p@.len())[j as int] != p@[j as int]);
            return false;
        }
        j = j + 1;
    }
    assert(v@.subrange(i as int, i + p@.len()) =~= p@);
    true
}

/// The first index at or after `from` where `p` occurs in `v`.
pub fn find_exec(v: &[char], p: &[char], from: usize) -> (r: Option<usize>)
    ensures
        match r {
            Some(k) => find_from(v@, p@, from as int) == Some(k as int),
            None => find_from(v@, p@, from as int) is None,
        },
{
    if p.len() == 0 {
        if from <= v.len() {
            assert(matches_at(v@, from as int, p@)) by {
                assert(v@.subrange(from as int, from as int) =~= p@);
            }
            return Some(from);
        }
        return None;
    }
    let mut i = from;
    while i <= v.len() && p.len() <= v.len() - i
        invariant
            from <= i,
            p@.len() >= 1,
            find_from(v@, p@, from as int) == find_from(v@, p@, i as int),
        decreases v@.len() + 1 - i,
    {
        if matches_at_exec(v, i, p) {
            return Some(i);
        }
        i = i + 1;
    }
    None
}

/// Whether `p` occurs in `v`.
pub fn contains_exec(v: &[char], p: &[char]) -> (r: bool)
    ensures
        r == contains(v@, p@),
{
    proof {
        lemma_contains_find(v@, p@);
    }
    find_exec(v, p, 0).is_some()
}

/// `s` without one trailing `'\r'`.
pub open spec fn strip_cr(s: Seq<char>) -> Seq<char> {
    if s.len() > 0 && s.last() == '\r' {
        s.drop_last()
    } else {
        s
    }
}

/// The lines of `s` from index `pos` on: pieces ending at each `'\n'` (which is
/// dropped, together with one `'\r'` right before it); a final piece without `'\n'`
/// is kept as it is, and an empty remainder yields no piece.
pub open spec fn lines_from(s: Seq<char>, pos: int) -> Seq<Seq<char>>
    decreases s.len() - pos,
{
    if pos < 0 || pos >= s.len() {
        seq![]
    } else {
        match find_from(s, seq!['\n'], pos) {
            None => seq![s.subrange(pos, s.len() as int)],
            Some(i) => {
                proof {
                    lemma_find_from(s, seq!['\n'], pos);
                }
                seq![strip_cr(s.subrange(pos, i))] + lines_from(s, i + 1)
            },
        }
    }
}

/// The lines of `s`, as `str::lines` yields them.
pub open spec fn lines(s: Seq<char>) -> Seq<Seq<char>> {
    lines_from(s, 0)
}

/// The views of a sequence of character vectors.
pub open spec fn views(v: Seq<Vec<char>>) -> Seq<Seq<char>> {
    v.map_values(|x: Vec<char>| x@)
}

pub proof fn lemma_views_push(v: Seq<Vec<char>>, x: Vec<char>)
    ensures
        views(v.push(x)) == views(v).push(x@),
{
    assert(views(v.push(x)) =~= views(v).push(x@));
}

/// The lines of `v`.
pub fn lines_exec(v: &[char]) -> (r: Vec<Vec<char>>)
    ensures
        views(r@) == lines(v@),
{
    let nl: Vec<char> = vec!['\n'];
    assert(nl@ =~= seq!['\n']);
    let mut out: Vec<Vec<char>> = Vec::new();
    let mut pos: usize = 0;
    while pos < v.len()
        invariant
            pos <= v@.len(),
            nl@ == seq!['\n'],
            views(out@) + lines_from(v@, pos as int) == lines(v@),
        decreases v@.len() - pos,
    {
        let ghost before = out@;
        match find_exec(v, nl.as_slice(), pos) {
            None => {
                let piece = slice_chars(v, pos, v.len());
                proof {
                    lemma_views_push(out@, piece);
                    assert(lines_from(v@, v@.len() as int) == Seq::<Seq<char>>::empty());
                }
                out.push(piece);
                assert(views(out@) + lines_from(v@, v@.len() as int) =~= views(before) + lines_from(v@, pos as int));
                pos = v.len();
            },
            Some(i) => {
                proof {
                    lemma_find_from(v@, seq!['\n'], pos as int);
                }
                let mut piece = slice_chars(v, pos, i);
                if piece.len() > 0 && piece[piece.len() - 1] == '\r' {
                    piece.pop();
                }
                assert(piece@ == strip_cr(v@.subrange(pos as int, i as int)));
                proof {
                    lemma_views_push(out@, piece);
                }
                out.push(piece);
                assert(views(out@) + lines_from(v@, i + 1) =~= views(before) + lines_from(v@, pos as int));
                pos = i + 1;
            },
        }
    }
    assert(lines_from(v@, pos as int) == Seq::<Seq<char>>::empty());
    assert(views(out@) =~= views(out@) + lines_from(v@, pos as int));
    out
}

/// The pieces of `s` from index `pos` on, separated by the non-empty pattern `p`,
/// matched left to right without overlap (as `str::split` with a string pattern).
pub open spec fn split_from(s: Seq<char>, p: Seq<char>, pos: int) -> Seq<Seq<char>>
    decreases s.len() + 1 - pos,
{
    if pos < 0 || pos > s.len() || p.len() == 0 {
        seq![]
    } else {
        match find_from(s, p, pos) {
            None => seq![s.subrange(pos, s.len() as int)],
            Some(i) => {
                proof {
                    lemma_find_from(s, p, pos);
                }
                seq![s.subrange(pos, i)] + split_from(s, p, i + p.len())
            },
        }
    }
}

/// The pieces of `s` separated by the non-empty pattern `p`.
pub open spec fn split(s: Seq<char>, p: Seq<char>) -> Seq<Seq<char>> {
    split_from(s, p, 0)
}

/// The pieces of `v` separated by `p`.
pub fn split_exec(v: &[char], p: &[char]) -> (r: Vec<Vec<char>>)
    requires
        p@.len() > 0,
    ensures
        views(r@) == split(v@, p@),
{
    let mut out: Vec<Vec<char>> = Vec::new();
    let mut pos: usize = 0;
    loop
        invariant
            pos <= v@.len(),
            p@.len() > 0,
            views(out@) + split_from(v@, p@, pos as int) == split(v@, p@),
        decreases v@.len() + 1 - pos,
    {
        let ghost before = out@;
        match find_exec(v, p, pos) {
            None => {
                let piece = slice_chars(v, pos, v.len());
                proof {
                    lemma_views_push(out@, piece);
                }
                out.push(piece);
                assert(views(out@) =~= views(before) + split_from(v@, p@, pos as int));
                return out;
            },
            Some(i) => {
                proof {
                    lemma_find_from(v@, p@, pos as int);
                }
                let piece = slice_chars(v, pos, i);
                proof {
                    lemma_views_push(out@, piece);
                }
                out.push(piece);
                assert(views(out@) + split_from(v@, p@, i + p@.len()) =~= views(before)
                    + split_from(v@, p@, pos as int));
                assert(matches_at(v@, i as int, p@));
                assert(i + p.len() <= v.len());
                pos = i + p.len();
            },
        }
    }
}

/// `s` from index `pos` on, with each left-to-right, non-overlapping occurrence of
/// the non-empty pattern `p` replaced by `r`.
pub open spec fn replace_from(s: Seq<char>, p: Seq<char>, r: Seq<char>, pos: int) -> Seq<char>
    decreases s.len() + 1 - pos,
{
    if pos < 0 || pos > s.len() || p.len() == 0 {
        seq![]
    } else {
        match find_from(s, p, pos) {
            None => s.subrange(pos, s.len() as int),
            Some(i) => {
                proof {
                    lemma_find_from(s, p, pos);
                }
                s.subrange(pos, i) + r + replace_from(s, p, r, i + p.len())
            },
        }
    }
}

/// `s` with each occurrence of the non-empty pattern `p` replaced by `r`.
pub open spec fn replace(s: Seq<char>, p: Seq<char>, r: Seq<char>) -> Seq<char> {
    replace_from(s, p, r, 0)
}

/// `v` with each occurrence of `p` replaced by `r`.
pub fn replace_exec(v: &[char], p: &[char], r: &[char]) -> (out: Vec<char>)
    requires
        p@.len() > 0,
    ensures
        out@ == replace(v@, p@, r@),
{
    let mut out: Vec<char> = Vec::new();
    let mut pos: usize = 0;
    loop
        invariant
            pos <= v@.len(),
            p@.len() > 0,
            out@ + replace_from(v@, p@, r@, pos as int) == replace(v@, p@, r@),
        decreases v@.len() + 1 - pos,
    {
        let ghost before = out@;
        match find_exec(v, p, pos) {
            None => {
                let piece = slice_chars(v, pos, v.len());
                out.extend_from_slice(piece.as_slice());
                assert(out@ =~= before + replace_from(v@, p@, r@, pos as int));
                return out;
            },
            Some(i) => {
                proof {
                    lemma_find_from(v@, p@, pos as int);
                }
                let piece = slice_chars(v, pos, i);
                out.extend_from_slice(piece.as_slice());
                out.extend_from_slice(r);
                assert(out@ + replace_from(v@, p@, r@, i + p@.len()) =~= before + replace_from(
                    v@,
                    p@,
                    r@,
                    pos as int,
                ));
                assert(matches_at(v@, i as int, p@));
                assert(i + p.len() <= v.len());
                pos = i + p.len();
            },
        }
    }
}

/// The pieces `ls` joined with `sep` between consecutive pieces.
pub open spec fn join(ls: Seq<Seq<char>>, sep: Seq<char>) -> Seq<char>
    decreases ls.len(),
{
    if ls.len() == 0 {
        seq![]
    } else if ls.len() == 1 {
        ls[0]
    } else {
        join(ls.drop_last(), sep) + sep + ls.last()
    }
}

/// The pieces of `ls[from..]` joined with `sep`.
pub fn join_exec(ls: &Vec<Vec<char>>, from: usize, sep: &[char]) -> (r: Vec<char>)
    requires
        from <= ls@.len(),
    ensures
        r@ == join(views(ls@).skip(from as int), sep@),
{
    let ghost all = views(ls@).skip(from as int);
    let mut out: Vec<char> = Vec::new();
    let mut i = from;
    assert(all.take(0) =~= Seq::<Seq<char>>::empty());
    while i < ls.len()
        invariant
            from <= i <= ls@.len(),
            all == views(ls@).skip(from as int),
            out@ == join(all.take(i - from), sep@),
        decreases ls@.len() - i,
    {
        if i > from {
            out.extend_from_slice(sep);
        }
        out.extend_from_slice(ls[i].as_slice());
        assert(all.take(i + 1 - from).drop_last() =~= all.take(i - from));
        assert(all[i - from] == ls@[i as int]@);
        if i == from {
            assert(all.take(1) =~= seq![ls@[i as int]@]);
        }
        i = i + 1;
    }
    assert(all.take(i - from) =~= all);
    out
}

/// `s` with ASCII letters lower-cased.
pub open spec fn ascii_lower(s: Seq<char>) -> Seq<char> {
    s.map_values(|c: char| if 'A' <= c && c <= 'Z' { (((c as u32) + 32) as u8) as char } else { c })
}

/// `v` with ASCII letters lower-cased.
pub fn ascii_lower_exec(v: &[char]) -> (r: Vec<char>)
    ensures
        r@ == ascii_lower(v@),
{
    let mut out: Vec<char> = Vec::new();
    let mut i: usize = 0;
    while i < v.len()
        invariant
            i <= v@.len(),
            out@ == ascii_lower(v@.take(i as int)),
        decreases v@.len() - i,
    {
        let c = v[i];
        let l = if 'A' <= c && c <= 'Z' {
            (((c as u32) + 32) as u8) as char
        } else {
            c
        };
        out.push(l);
        assert(ascii_lower(v@.take(i + 1)) =~= ascii_lower(v@.take(i as int)).push(l));
        i = i + 1;
    }
    assert(v@.take(i as int) =~= v@);
    out
}

/// The order of strings: character by character by code point, a proper prefix
/// first. (For UTF-8 text this is the byte order `str` compares by.)
pub open spec fn str_le(a: Seq<char>, b: Seq<char>) -> bool
    decreases a.len(),
{
    if a.len() == 0 {
        true
    } else if b.len() == 0 {
        false
    } else if a[0] != b[0] {
        a[0] < b[0]
    } else {
        str_le(a.drop_first(), b.drop_first())
    }
}

proof fn lemma_str_le_reflexive(a: Seq<char>)
    ensures
        str_le(a, a),
    decreases a.len(),
{
    if a.len() > 0 {
        lemma_str_le_reflexive(a.drop_first());
    }
}

proof fn lemma_str_le_antisymmetric(a: Seq<char>, b: Seq<char>)
    requires
        str_le(a, b),
        str_le(b, a),
    ensures
        a == b,
    decreases a.len(),
{
    if a.len() > 0 && b.len() > 0 && a[0] == b[0] {
        lemma_str_le_antisymmetric(a.drop_first(), b.drop_first());
        assert(a =~= seq![a[0]] + a.drop_first());
        assert(b =~= seq![b[0]] + b.drop_first());
    } else if a.len() == 0 && b.len() == 0 {
        assert(a =~= b);
    }
}

proof fn lemma_str_le_transitive(a: Seq<char>, b: Seq<char>, c: Seq<char>)
    requires
        str_le(a, b),
        str_le(b, c),
    ensures
        str_le(a, c),
    decreases a.len(),
{
    if a.len() > 0 && b.len() > 0 && c.len() > 0 && a[0] == b[0] && b[0] == c[0] {
        lemma_str_le_transitive(a.drop_first(), b.drop_first(), c.drop_first());
    }
}

proof fn lemma_str_le_total(a: Seq<char>, b: Seq<char>)
    ensures
        str_le(a, b) || str_le(b, a),
    decreases a.len(),
{
    if a.len() > 0 && b.len() > 0 && a[0] == b[0] {
        lemma_str_le_total(a.drop_first(), b.drop_first());
    }
}

/// The order of strings is a total order.
pub proof fn lemma_str_le_total_ordering()
    ensures
        vstd::relations::total_ordering(|a: Seq<char>, b: Seq<char>| str_le(a, b)),
{
    let le = |a: Seq<char>, b: Seq<char>| str_le(a, b);
    assert forall|x: Seq<char>| #[trigger] le(x, x) by {
        lemma_str_le_reflexive(x);
    }
    assert forall|x: Seq<char>, y: Seq<char>| #[trigger] le(x, y) && #[trigger] le(y, x) implies x
        == y by {
        lemma_str_le_antisymmetric(x, y);
    }
    assert forall|x: Seq<char>, y: Seq<char>, z: Seq<char>| #[trigger] le(x, y) && #[trigger] le(
        y,
        z,
    ) implies le(x, z) by {
        lemma_str_le_transitive(x, y, z);
    }
    assert forall|x: Seq<char>, y: Seq<char>| #[trigger] le(x, y) || #[trigger] le(y, x) by {
        lemma_str_le_total(x, y);
    }
}

/// Whether `a` comes before `b` or equals it, in the order of strings.
pub fn str_le_exec(a: &str, b: &str) -> (r: bool)
    ensures
        r == str_le(a@, b@),
{
    let x = chars_of(a);
    let y = chars_of(b);
    let mut i: usize = 0;
    assert(x@.skip(0) =~= x@);
    assert(y@.skip(0) =~= y@);
    while i < x.len() && i < y.len() && x[i] == y[i]
        invariant
            i <= x@.len(),
            i <= y@.len(),
            str_le(a@, b@) == str_le(x@.skip(i as int), y@.skip(i as int)),
            x@ == a@,
            y@ == b@,
        decreases x@.len() - i,
    {
        assert(x@.skip(i as int).drop_first() =~= x@.skip(i + 1));
        assert(y@.skip(i as int).drop_first() =~= y@.skip(i + 1));
        i = i + 1;
    }
    if i == x.len() {
        true
    } else if i == y.len() {
        false
    } else {
        x[i] < y[i]
    }
}

} // verus!
