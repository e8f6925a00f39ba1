//! Composing a readable document from active atoms.
use vstd::prelude::*;

use crate::error::{strs, validation_view, Error, ErrorView};
use crate::keyed::{keys_distinct, lookup, lookup_from};
use crate::model::atom::{title_body_problem, validate_title_body};
use crate::model::composed::{ComposedDoc, ComposedDocView};
use crate::model::slug::{slug_problem, validate_slug};
use crate::model::status::Status;
use crate::text::{
    chars_of, contains, contains_exec, join, join_exec, lines, lines_exec, push_chars, push_str,
    replace, replace_exec, split, split_exec, string_of, trim, trim_chars, trim_end,
    trim_end_chars, views,
};

verus! {

/// The input of [`compose`]: the document's slug, title, the ids of the atoms it
/// rests on, in order, and its body.
#[derive(Clone, Debug, PartialEq, Eq)]
pub struct ComposeDraft {
    pub slug: String,
    pub title: String,
    pub atoms: Vec<String>,
    pub body: String,
}

/// What [`compose`] needs to know of an existing atom.
#[derive(Clone, Debug, PartialEq, Eq)]
pub struct ComposeAtom {
    pub status: Status,
    pub title: String,
}

pub struct ComposeAtomView {
    pub status: Status,
    pub title: Seq<char>,
}

impl View for ComposeAtom {
    type V = ComposeAtomView;

    open spec fn view(&self) -> ComposeAtomView {
        ComposeAtomView { status: self.status, title: self.title@ }
    }
}

/// The known atoms as `(id, atom)` pairs of views.
pub open spec fn known_view(known: Seq<(String, ComposeAtom)>) -> Seq<(Seq<char>, ComposeAtomView)> {
    known.map_values(|e: (String, ComposeAtom)| (e.0@, e.1@))
}

/// The error of the field `atoms`.
pub open spec fn atoms_error(message: Seq<char>) -> ErrorView {
    validation_view(0, Some("atoms"@), message)
}

/// The error of the field `body`.
pub open spec fn body_error(message: Seq<char>) -> ErrorView {
    validation_view(0, Some("body"@), message)
}

/// The first problem with the atom ids from index `i` on: an empty id, or an id
/// already listed earlier.
pub open spec fn ids_problem_from(ids: Seq<Seq<char>>, i: int) -> Option<ErrorView>
    decreases ids.len() - i,
{
    if i < 0 || i >= ids.len() {
        None
    } else if ids[i].len() == 0 {
        Some(atoms_error("atoms must not contain an empty id"@))
    } else if ids.take(i).contains(ids[i]) {
        Some(atoms_error("duplicate atom `"@ + ids[i] + "`"@))
    } else {
        ids_problem_from(ids, i + 1)
    }
}

/// The first problem with the list of atom ids of a draft.
pub open spec fn ids_problem(ids: Seq<Seq<char>>) -> Option<ErrorView> {
    if ids.len() == 0 {
        Some(atoms_error("atoms must be non-empty"@))
    } else {
        ids_problem_from(ids, 0)
    }
}

/// The first referenced atom, from index `i` on, that is unknown, not active, or untitled.
pub open spec fn known_problem_from(
    ids: Seq<Seq<char>>,
    known: Seq<(Seq<char>, ComposeAtomView)>,
    i: int,
) -> Option<ErrorView>
    decreases ids.len() - i,
{
    if i < 0 || i >= ids.len() {
        None
    } else {
        match lookup(known, ids[i]) {
            None => Some(atoms_error("atom `"@ + ids[i] + "` not found"@)),
            Some(a) => if a.status != Status::Active {
                Some(atoms_error("atom `"@ + ids[i] + "` is not active"@))
            } else if a.title.len() == 0 {
                Some(atoms_error("atom `"@ + ids[i] + "` title must be non-empty"@))
            } else {
                known_problem_from(ids, known, i + 1)
            },
        }
    }
}

/// The number of leading `c` characters of `s`.
pub open spec fn leading_count(s: Seq<char>, c: char) -> nat
    decreases s.len(),
{
    if s.len() > 0 && s[0] == c {
        1 + leading_count(s.drop_first(), c)
    } else {
        0
    }
}

/// The number of `#` that open a heading line (at most six).
pub open spec fn heading_level(s: Seq<char>) -> nat {
    let n = leading_count(s, '#');
    if n > 6 {
        6
    } else {
        n
    }
}

/// A markdown ATX heading: one to six `#`, then the end of the line, a space or a tab.
pub open spec fn is_heading(s: Seq<char>) -> bool {
    let h = heading_level(s);
    h > 0 && (h == s.len() || s[h as int] == ' ' || s[h as int] == '\t')
}

/// The text of a heading line, without its `#` marks and surrounding whitespace.
pub open spec fn heading_text(line: Seq<char>) -> Option<Seq<char>> {
    let t = trim(line);
    if !is_heading(t) {
        None
    } else {
        Some(trim(t.skip(leading_count(t, '#') as int)))
    }
}

/// The heading under which the atom index of a composed document stands.
pub open spec fn index_heading() -> Seq<char> {
    "依据"@
}

/// The body has a heading line whose text is the index heading.
pub open spec fn has_index_heading(body: Seq<char>) -> bool {
    exists|i: int|
        0 <= i < lines(body).len() && #[trigger] heading_text(lines(body)[i]) == Some(
            index_heading(),
        )
}

/// The marker of a link into the atoms directory.
pub open spec fn atom_link_marker() -> Seq<char> {
    "](../atoms/"@
}

/// A line that opens no paragraph: blank, or a heading.
pub open spec fn is_skippable_line(l: Seq<char>) -> bool {
    trim(l).len() == 0 || is_heading(trim(l))
}

/// `ls` without its leading skippable lines.
pub open spec fn drop_skippable(ls: Seq<Seq<char>>) -> Seq<Seq<char>>
    decreases ls.len(),
{
    if ls.len() > 0 && is_skippable_line(ls[0]) {
        drop_skippable(ls.drop_first())
    } else {
        ls
    }
}

/// The paragraph text of a block: its lines after the leading blank and heading
/// lines, joined, trimmed.
pub open spec fn paragraph_of(block: Seq<char>) -> Seq<char> {
    trim(join(drop_skippable(lines(block)), "\n"@))
}

/// The non-empty paragraph texts of the blocks, in order.
pub open spec fn paragraphs_of_blocks(bs: Seq<Seq<char>>) -> Seq<Seq<char>>
    decreases bs.len(),
{
    if bs.len() == 0 {
        seq![]
    } else {
        let p = paragraph_of(bs[0]);
        (if p.len() > 0 {
            seq![p]
        } else {
            seq![]
        }) + paragraphs_of_blocks(bs.drop_first())
    }
}

/// The content paragraphs of a body: blank-line separated blocks (after `\r\n` is
/// normalised to `\n`) that hold something besides headings.
pub open spec fn content_paragraphs(body: Seq<char>) -> Seq<Seq<char>> {
    paragraphs_of_blocks(split(replace(body, "\r\n"@, "\n"@), "\n\n"@))
}

/// `title` with `\`, `[` and `]` escaped by a backslash, for use as link text.
pub open spec fn escape_link_text(t: Seq<char>) -> Seq<char>
    decreases t.len(),
{
    if t.len() == 0 {
        seq![]
    } else {
        let c = t.last();
        escape_link_text(t.drop_last()) + (if c == '\\' || c == '[' || c == ']' {
            seq!['\\', c]
        } else {
            seq![c]
        })
    }
}

/// One index line: a link from the atom's title to its file.
pub open spec fn index_entry(id: Seq<char>, title: Seq<char>) -> Seq<char> {
    "- ["@ + escape_link_text(title) + atom_link_marker() + id + ".md)\n"@
}

/// The index lines of `(id, title)` entries, in order.
pub open spec fn index_entries(es: Seq<(Seq<char>, Seq<char>)>) -> Seq<char>
    decreases es.len(),
{
    if es.len() == 0 {
        seq![]
    } else {
        index_entries(es.drop_last()) + index_entry(es.last().0, es.last().1)
    }
}

/// The body with trailing whitespace removed and the index section appended.
pub open spec fn with_index(body: Seq<char>, es: Seq<(Seq<char>, Seq<char>)>) -> Seq<char> {
    trim_end(body) + "\n\n## "@ + index_heading() + "\n\n"@ + index_entries(es)
}

/// The index entries of the atoms `ids`: each id with its title in `known`.
pub open spec fn entries_of(ids: Seq<Seq<char>>, known: Seq<(Seq<char>, ComposeAtomView)>) -> Seq<
    (Seq<char>, Seq<char>),
> {
    ids.map_values(|id: Seq<char>| (id, lookup(known, id).unwrap().title))
}

/// What composing a draft gives: the first problem found, in the order slug,
/// title/body, atom ids, referenced atoms, atom links in the body, an index heading
/// in the body, no content paragraph; otherwise the document.
pub open spec fn compose_result(
    slug: Seq<char>,
    title: Seq<char>,
    ids: Seq<Seq<char>>,
    body: Seq<char>,
    known: Seq<(Seq<char>, ComposeAtomView)>,
) -> Result<ComposedDocView, ErrorView> {
    if slug_problem(slug) is Some {
        Err(validation_view(0, Some("slug"@), slug_problem(slug).unwrap()))
    } else if title_body_problem(0, title, body) is Some {
        Err(title_body_problem(0, title, body).unwrap())
    } else if ids_problem(ids) is Some {
        Err(ids_problem(ids).unwrap())
    } else if known_problem_from(ids, known, 0) is Some {
        Err(known_problem_from(ids, known, 0).unwrap())
    } else if contains(body, atom_link_marker()) {
        Err(body_error("body must not contain atom links"@))
    } else if has_index_heading(body) {
        Err(body_error("body must not contain a 依据 heading"@))
    } else if content_paragraphs(body).len() == 0 {
        Err(body_error("body must have at least one paragraph"@))
    } else {
        Ok(
            ComposedDocView {
                id: slug,
                title,
                atoms: ids,
                body: with_index(body, entries_of(ids, known)),
            },
        )
    }
}

fn atoms_err(message: String) -> (e: Error)
    ensures
        e@ == atoms_error(message@),
{
    Error::validation(0, Some(String::from_str("atoms")), message)
}

fn body_err(message: String) -> (e: Error)
    ensures
        e@ == body_error(message@),
{
    Error::validation(0, Some(String::from_str("body")), message)
}

/// `prefix`, then `id`, then `suffix`.
fn quoted_message(prefix: &str, id: &String, suffix: &str) -> (r: String)
    ensures
        r@ == prefix@ + id@ + suffix@,
{
    let mut m = String::new();
    push_str(&mut m, prefix);
    push_str(&mut m, id.as_str());
    push_str(&mut m, suffix);
    m
}

/// Whether `s` is among the first `n` entries of `v`.
fn listed_before(v: &Vec<String>, n: usize, s: &String) -> (r: bool)
    requires
        n <= v@.len(),
    ensures
        r == strs(v@).take(n as int).contains(s@),
{
    let mut j: usize = 0;
    while j < n
        invariant
            n <= v@.len(),
            j <= n,
            forall|k: int| 0 <= k < j ==> strs(v@)[k] != s@,
        decreases n - j,
    {
        if v[j] == *s {
            assert(strs(v@).take(n as int)[j as int] == s@);
            return true;
        }
        j = j + 1;
    }
    assert forall|k: int| 0 <= k < n implies strs(v@).take(n as int)[k] != s@ by {
        assert(strs(v@).take(n as int)[k] == strs(v@)[k]);
    }
    false
}

/// Checks that the atom list is non-empty, without empty or repeated ids, and
/// returns a copy of it.
fn unique_atom_ids(ids: &Vec<String>) -> (r: Result<Vec<String>, Error>)
    ensures
        match r {
            Ok(out) => ids_problem(strs(ids@)) is None && strs(out@) == strs(ids@),
            Err(e) => ids_problem(strs(ids@)) == Some(e@),
        },
{
    if ids.len() == 0 {
        return Err(atoms_err(String::from_str("atoms must be non-empty")));
    }
    let ghost s = strs(ids@);
    let mut out: Vec<String> = Vec::new();
    let mut i: usize = 0;
    while i < ids.len()
        invariant
            i <= ids@.len(),
            s == strs(ids@),
            ids_problem_from(s, 0) == ids_problem_from(s, i as int),
            strs(out@) == s.take(i as int),
        decreases ids@.len() - i,
    {
        let id = &ids[i];
        assert(s[i as int] == id@);
        if id.as_str().is_empty() {
            return Err(atoms_err(String::from_str("atoms must not contain an empty id")));
        }
        if listed_before(ids, i, id) {
            return Err(atoms_err(quoted_message("duplicate atom `", id, "`")));
        }
        let ghost before = out@;
        out.push(id.clone());
        assert(strs(out@) =~= s.take(i + 1)) by {
            assert(strs(out@) =~= strs(before).push(id@));
            assert(s.take(i + 1) =~= s.take(i as int).push(s[i as int]));
        }
        i = i + 1;
    }
    assert(s.take(i as int) =~= s);
    Ok(out)
}

/// The index of the first entry of `known` whose key is `id`.
fn find_known(known: &Vec<(String, ComposeAtom)>, id: &String) -> (r: Option<usize>)
    ensures
        match r {
            Some(k) => k < known@.len() && known@[k as int].0@ == id@ && lookup(
                known_view(known@),
                id@,
            ) == Some(known@[k as int].1@),
            None => lookup(known_view(known@), id@) is None,
        },
{
    let ghost kv = known_view(known@);
    let mut j: usize = 0;
    while j < known.len()
        invariant
            j <= known@.len(),
            kv == known_view(known@),
            lookup(kv, id@) == lookup_from(kv, id@, j as int),
        decreases known@.len() - j,
    {
        assert(kv[j as int] == (known@[j as int].0@, known@[j as int].1@));
        if known[j].0 == *id {
            return Some(j);
        }
        j = j + 1;
    }
    None
}

/// The number of leading `#` of `v`, up to six.
fn heading_level_exec(v: &[char]) -> (r: usize)
    ensures
        r == heading_level(v@),
        r <= v@.len(),
{
    let mut n: usize = 0;
    assert(v@.skip(0) =~= v@);
    while n < 6 && n < v.len() && v[n] == '#'
        invariant
            n <= 6,
            n <= v@.len(),
            forall|k: int| 0 <= k < n ==> v@[k] == '#',
            leading_count(v@, '#') == n + leading_count(v@.skip(n as int), '#'),
        decreases 6 - n,
    {
        assert(v@.skip(n as int).drop_first() =~= v@.skip(n + 1));
        n = n + 1;
    }
    proof {
        if n < 6 {
            if n < v@.len() {
                assert(v@.skip(n as int)[0] != '#');
            } else {
                assert(v@.skip(n as int).len() == 0);
            }
            assert(leading_count(v@.skip(n as int), '#') == 0);
        }
    }
    n
}

/// Whether `v` is a markdown heading line.
fn is_heading_exec(v: &[char]) -> (r: bool)
    ensures
        r == is_heading(v@),
{
    let h = heading_level_exec(v);
    h > 0 && (h == v.len() || v[h] == ' ' || v[h] == '\t')
}

/// The number of leading `#` of `v`.
fn leading_hashes(v: &[char]) -> (r: usize)
    ensures
        r == leading_count(v@, '#'),
        r <= v@.len(),
{
    let mut n: usize = 0;
    assert(v@.skip(0) =~= v@);
    while n < v.len() && v[n] == '#'
        invariant
            n <= v@.len(),
            leading_count(v@, '#') == n + leading_count(v@.skip(n as int), '#'),
        decreases v@.len() - n,
    {
        assert(v@.skip(n as int).drop_first() =~= v@.skip(n + 1));
        n = n + 1;
    }
    n
}

/// The text of a heading line, or `None` when the line is not a heading.
fn heading_text_exec(line: &[char]) -> (r: Option<Vec<char>>)
    ensures
        match r {
            Some(t) => heading_text(line@) == Some(t@),
            None => heading_text(line@) is None,
        },
{
    let t = trim_chars(line);
    if !is_heading_exec(t.as_slice()) {
        return None;
    }
    let n = leading_hashes(t.as_slice());
    let rest = crate::text::slice_chars(t.as_slice(), n, t.len());
    assert(rest@ =~= t@.skip(n as int));
    Some(trim_chars(rest.as_slice()))
}

/// Refuses a body that links into the atoms directory.
fn reject_atom_links(body: &[char]) -> (r: Result<(), Error>)
    ensures
        match r {
            Ok(()) => !contains(body@, atom_link_marker()),
            Err(e) => contains(body@, atom_link_marker()) && e@ == body_error(
                "body must not contain atom links"@,
            ),
        },
{
    let marker = chars_of("](../atoms/");
    if contains_exec(body, marker.as_slice()) {
        return Err(body_err(String::from_str("body must not contain atom links")));
    }
    Ok(())
}

/// Refuses a body that already has a heading named like the atom index.
fn reject_index_heading(body: &[char]) -> (r: Result<(), Error>)
    ensures
        match r {
            Ok(()) => !has_index_heading(body@),
            Err(e) => has_index_heading(body@) && e@ == body_error(
                "body must not contain a 依据 heading"@,
            ),
        },
{
    let heading = chars_of("依据");
    let ls = lines_exec(body);
    let mut i: usize = 0;
    while i < ls.len()
        invariant
            i <= ls@.len(),
            views(ls@) == lines(body@),
            heading@ == index_heading(),
            forall|k: int|
                0 <= k < i ==> #[trigger] heading_text(lines(body@)[k]) != Some(index_heading()),
        decreases ls@.len() - i,
    {
        assert(lines(body@)[i as int] == ls@[i as int]@);
        match heading_text_exec(ls[i].as_slice()) {
            Some(t) => {
                if string_of(t.as_slice()) == string_of(heading.as_slice()) {
                    assert(heading_text(lines(body@)[i as int]) == Some(index_heading()));
                    return Err(body_err(String::from_str("body must not contain a 依据 heading")));
                }
            },
            None => {},
        }
        i = i + 1;
    }
    Ok(())
}

/// Whether `l` is blank or a heading.
fn is_skippable_exec(l: &[char]) -> (r: bool)
    ensures
        r == is_skippable_line(l@),
{
    let t = trim_chars(l);
    t.len() == 0 || is_heading_exec(t.as_slice())
}

/// The paragraph text of one block.
fn paragraph_of_exec(block: &[char]) -> (r: Vec<char>)
    ensures
        r@ == paragraph_of(block@),
{
    let ls = lines_exec(block);
    let ghost all = views(ls@);
    let mut k: usize = 0;
    assert(all.skip(0) =~= all);
    while k < ls.len() && is_skippable_exec(ls[k].as_slice())
        invariant
            k <= ls@.len(),
            all == views(ls@),
            drop_skippable(all) == drop_skippable(all.skip(k as int)),
        decreases ls@.len() - k,
    {
        assert(all.skip(k as int).drop_first() =~= all.skip(k + 1));
        assert(all.skip(k as int)[0] == ls@[k as int]@);
        k = k + 1;
    }
    proof {
        if k < ls@.len() {
            assert(all.skip(k as int)[0] == ls@[k as int]@);
        }
        assert(drop_skippable(all.skip(k as int)) == all.skip(k as int));
    }
    let nl = chars_of("\n");
    let joined = join_exec(&ls, k, nl.as_slice());
    trim_chars(joined.as_slice())
}

/// The content paragraphs of a body.
fn content_paragraphs_exec(body: &[char]) -> (r: Vec<Vec<char>>)
    ensures
        views(r@) == content_paragraphs(body@),
{
    let crlf = chars_of("\r\n");
    let lf = chars_of("\n");
    let sep = chars_of("\n\n");
    proof {
        reveal_strlit("\r\n");
        reveal_strlit("\n\n");
    }
    let normalized = replace_exec(body, crlf.as_slice(), lf.as_slice());
    let blocks = split_exec(normalized.as_slice(), sep.as_slice());
    let ghost bs = views(blocks@);
    let mut out: Vec<Vec<char>> = Vec::new();
    let mut i: usize = 0;
    assert(bs.skip(0) =~= bs);
    while i < blocks.len()
        invariant
            i <= blocks@.len(),
            bs == views(blocks@),
            views(out@) + paragraphs_of_blocks(bs.skip(i as int)) == paragraphs_of_blocks(bs),
        decreases blocks@.len() - i,
    {
        let ghost before = out@;
        let p = paragraph_of_exec(blocks[i].as_slice());
        assert(bs.skip(i as int).drop_first() =~= bs.skip(i + 1));
        assert(bs.skip(i as int)[0] == blocks@[i as int]@);
        if p.len() > 0 {
            proof {
                crate::text::lemma_views_push(out@, p);
            }
            out.push(p);
            assert(views(out@) + paragraphs_of_blocks(bs.skip(i + 1)) =~= views(before)
                + paragraphs_of_blocks(bs.skip(i as int)));
        } else {
            assert(paragraphs_of_blocks(bs.skip(i as int)) =~= paragraphs_of_blocks(
                bs.skip(i + 1),
            ));
        }
        i = i + 1;
    }
    assert(views(out@) =~= views(out@) + paragraphs_of_blocks(bs.skip(i as int)));
    out
}

/// `title` escaped for use as link text.
fn escape_link_text_exec(title: &[char]) -> (r: Vec<char>)
    ensures
        r@ == escape_link_text(title@),
{
    let mut out: Vec<char> = Vec::new();
    let mut i: usize = 0;
    while i < title.len()
        invariant
            i <= title@.len(),
            out@ == escape_link_text(title@.take(i as int)),
        decreases title@.len() - i,
    {
        let c = title[i];
        assert(title@.take(i + 1).drop_last() =~= title@.take(i as int));
        if c == '\\' || c == '[' || c == ']' {
            out.push('\\');
        }
        out.push(c);
        i = i + 1;
        assert(out@ =~= escape_link_text(title@.take(i as int)));
    }
    assert(title@.take(i as int) =~= title@);
    out
}

/// The `(id, title)` views of index entries.
pub open spec fn entry_views(es: Seq<(String, String)>) -> Seq<(Seq<char>, Seq<char>)> {
    es.map_values(|e: (String, String)| (e.0@, e.1@))
}

/// The body with the atom index appended.
fn append_index(body: &[char], entries: &Vec<(String, String)>) -> (r: String)
    ensures
        r@ == with_index(body@, entry_views(entries@)),
{
    let trimmed = trim_end_chars(body);
    let mut out = string_of(trimmed.as_slice());
    push_str(&mut out, "\n\n## ");
    push_str(&mut out, "依据");
    push_str(&mut out, "\n\n");
    let ghost head = out@;
    let ghost ev = entry_views(entries@);
    let mut i: usize = 0;
    assert(ev.take(0) =~= Seq::<(Seq<char>, Seq<char>)>::empty());
    while i < entries.len()
        invariant
            i <= entries@.len(),
            ev == entry_views(entries@),
            out@ == head + index_entries(ev.take(i as int)),
        decreases entries@.len() - i,
    {
        let (id, title) = (&entries[i].0, &entries[i].1);
        let title_chars = chars_of(title.as_str());
        let escaped = escape_link_text_exec(title_chars.as_slice());
        push_str(&mut out, "- [");
        push_chars(&mut out, escaped.as_slice());
        push_str(&mut out, "](../atoms/");
        push_str(&mut out, id.as_str());
        push_str(&mut out, ".md)\n");
        assert(ev.take(i + 1).drop_last() =~= ev.take(i as int));
        assert(ev[i as int] == (id@, title@));
        i = i + 1;
        assert(out@ =~= head + index_entries(ev.take(i as int)));
    }
    assert(ev.take(i as int) =~= ev);
    out
}

/// Validates a composed document, takes its `id` from the slug, and appends an
/// index of the atoms it rests on (`## 依据` with one link per atom, titled by the
/// atom's title). The atoms themselves are not changed.
///
/// `known` lists the existing atoms as `(id, atom)` pairs with distinct ids.
pub fn compose(draft: &ComposeDraft, known: &Vec<(String, ComposeAtom)>) -> (r: Result<
    ComposedDoc,
    Error,
>)
    requires
        keys_distinct(known_view(known@)),
    ensures
        match r {
            Ok(d) => compose_result(
                draft.slug@,
                draft.title@,
                strs(draft.atoms@),
                draft.body@,
                known_view(known@),
            ) == Ok::<ComposedDocView, ErrorView>(d@),
            Err(e) => compose_result(
                draft.slug@,
                draft.title@,
                strs(draft.atoms@),
                draft.body@,
                known_view(known@),
            ) == Err::<ComposedDocView, ErrorView>(e@),
        },
{
    let ghost ids = strs(draft.atoms@);
    let ghost kv = known_view(known@);
    match validate_slug(draft.slug.as_str()) {
        Ok(()) => {},
        Err(message) => {
            return Err(Error::validation(0, Some(String::from_str("slug")), message));
        },
    }
    validate_title_body(0, draft.title.as_str(), draft.body.as_str())?;
    let atoms = unique_atom_ids(&draft.atoms)?;
    let mut entries: Vec<(String, String)> = Vec::new();
    let mut i: usize = 0;
    while i < atoms.len()
        invariant
            i <= atoms@.len(),
            strs(atoms@) == ids,
            kv == known_view(known@),
            ids_problem(ids) is None,
            ids == strs(draft.atoms@),
            slug_problem(draft.slug@) is None,
            title_body_problem(0, draft.title@, draft.body@) is None,
            known_problem_from(ids, kv, 0) == known_problem_from(ids, kv, i as int),
            entry_views(entries@) == entries_of(ids, kv).take(i as int),
        decreases atoms@.len() - i,
    {
        let id = &atoms[i];
        assert(ids[i as int] == id@);
        match find_known(known, id) {
            None => {
                return Err(atoms_err(quoted_message("atom `", id, "` not found")));
            },
            Some(k) => {
                let atom = &known[k].1;
                if atom.status != Status::Active {
                    return Err(atoms_err(quoted_message("atom `", id, "` is not active")));
                }
                if atom.title.as_str().is_empty() {
                    return Err(
                        atoms_err(quoted_message("atom `", id, "` title must be non-empty")),
                    );
                }
                let ghost before = entries@;
                entries.push((id.clone(), atom.title.clone()));
                assert(entry_views(entries@) =~= entries_of(ids, kv).take(i + 1)) by {
                    assert(entry_views(entries@) =~= entry_views(before).push((id@, atom.title@)));
                    assert(entries_of(ids, kv).take(i + 1) =~= entries_of(ids, kv).take(
                        i as int,
                    ).push(entries_of(ids, kv)[i as int]));
                }
            },
        }
        i = i + 1;
    }
    assert(entries_of(ids, kv).take(i as int) =~= entries_of(ids, kv));
    let body = chars_of(draft.body.as_str());
    reject_atom_links(body.as_slice())?;
    reject_index_heading(body.as_slice())?;
    let paragraphs = content_paragraphs_exec(body.as_slice());
    if paragraphs.len() == 0 {
        return Err(body_err(String::from_str("body must have at least one paragraph")));
    }
    let indexed = append_index(body.as_slice(), &entries);
    Ok(ComposedDoc { id: draft.slug.clone(), title: draft.title.clone(), atoms, body: indexed })
}

proof fn lemma_known_from_active(
    ids: Seq<Seq<char>>,
    known: Seq<(Seq<char>, ComposeAtomView)>,
    i: int,
)
    requires
        0 <= i,
        known_problem_from(ids, known, i) is None,
    ensures
        forall|j: int|
            i <= j < ids.len() ==> #[trigger] lookup(known, ids[j]) is Some && lookup(
                known,
                ids[j],
            ).unwrap().status == Status::Active && lookup(known, ids[j]).unwrap().title.len() > 0,
    decreases ids.len() - i,
{
    if i < ids.len() {
        lemma_known_from_active(ids, known, i + 1);
    }
}

/// A composed document rests only on known, active atoms: when composing succeeds,
/// every id it lists names a known atom whose status is `Active` and whose title is
/// not empty; a draft or deprecated atom is always refused. The document keeps the
/// draft's slug as its id and the draft's ids, in order.
pub proof fn lemma_composed_atoms_are_active(
    slug: Seq<char>,
    title: Seq<char>,
    ids: Seq<Seq<char>>,
    body: Seq<char>,
    known: Seq<(Seq<char>, ComposeAtomView)>,
)
    ensures
        compose_result(slug, title, ids, body, known) matches Ok(d) ==> {
            &&& d.id == slug
            &&& d.atoms == ids
            &&& ids.len() > 0
            &&& forall|i: int|
                0 <= i < ids.len() ==> #[trigger] lookup(known, ids[i]) is Some && lookup(
                    known,
                    ids[i],
                ).unwrap().status == Status::Active
        },
        forall|i: int|
            0 <= i < ids.len() && #[trigger] lookup(known, ids[i]) is Some && lookup(
                known,
                ids[i],
            ).unwrap().status != Status::Active ==> compose_result(slug, title, ids, body, known)
                is Err,
{
    if compose_result(slug, title, ids, body, known) is Ok {
        lemma_known_from_active(ids, known, 0);
    }
    assert forall|i: int|
        0 <= i < ids.len() && #[trigger] lookup(known, ids[i]) is Some && lookup(
            known,
            ids[i],
        ).unwrap().status != Status::Active implies compose_result(slug, title, ids, body, known)
        is Err by {
        if compose_result(slug, title, ids, body, known) is Ok {
            lemma_known_from_active(ids, known, 0);
        }
    }
}

/// A composed body holds no link into the atoms directory of its own and no
/// `依据` heading; the document's body begins with the draft's body (without
/// trailing whitespace) and ends with the `依据` index.
pub proof fn lemma_composed_body(
    slug: Seq<char>,
    title: Seq<char>,
    ids: Seq<Seq<char>>,
    body: Seq<char>,
    known: Seq<(Seq<char>, ComposeAtomView)>,
)
    ensures
        compose_result(slug, title, ids, body, known) matches Ok(d) ==> {
            &&& !contains(body, "](../atoms/"@)
            &&& d.title == title
            &&& d.body == trim_end(body) + "\n\n## 依据\n\n"@ + index_entries(entries_of(ids, known))
        },
        contains(body, "](../atoms/"@) ==> compose_result(slug, title, ids, body, known) is Err,
{
    reveal_strlit("\n\n## ");
    reveal_strlit("依据");
    reveal_strlit("\n\n");
    reveal_strlit("\n\n## 依据\n\n");
    assert("\n\n## "@ + "依据"@ + "\n\n"@ =~= "\n\n## 依据\n\n"@);
}

proof fn lemma_ids_ok_from(ids: Seq<Seq<char>>, i: int)
    requires
        0 <= i,
        ids_problem_from(ids, i) is None,
    ensures
        forall|j: int| i <= j < ids.len() ==> (#[trigger] ids[j]).len() > 0 && !ids.take(j).contains(ids[j]),
    decreases ids.len() - i,
{
    if i < ids.len() {
        lemma_ids_ok_from(ids, i + 1);
    }
}

/// A composed document lists at least one atom, no empty id, and no id twice.
pub proof fn lemma_composed_ids_distinct(
    slug: Seq<char>,
    title: Seq<char>,
    ids: Seq<Seq<char>>,
    body: Seq<char>,
    known: Seq<(Seq<char>, ComposeAtomView)>,
)
    ensures
        compose_result(slug, title, ids, body, known) is Ok ==> {
            &&& ids.len() > 0
            &&& forall|i: int| 0 <= i < ids.len() ==> (#[trigger] ids[i]).len() > 0
            &&& forall|i: int, j: int| 0 <= i < j < ids.len() ==> ids[i] != ids[j]
        },
{
    if compose_result(slug, title, ids, body, known) is Ok {
        lemma_ids_ok_from(ids, 0);
        assert forall|i: int, j: int| 0 <= i < j < ids.len() implies ids[i] != ids[j] by {
            assert(ids.take(j)[i] == ids[i]);
            assert(!ids.take(j).contains(ids[j]));
        }
    }
}

} // verus!
