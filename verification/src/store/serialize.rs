//! The text format of atoms: YAML front matter (`id`, `status`, `title`, `tags`,
//! `freshness`, in this order, with kebab-case keys), then the body.
use vstd::prelude::*;

use crate::error::strs;
use crate::model::atom::{freshness_is_empty, Atom, AtomView, Freshness, FreshnessView, ImplPaths};
use crate::model::status::status_name;
use crate::store::error::{Error as StoreError, ErrorView as StoreErrorView};
use crate::store::scalar::{
    body_reads_back, dash_free_lines, frontmatter_of, lemma_dash_free_concat,
    lemma_line_dash_free, lemma_list_lines_dash_free, lemma_scalar_one_line, lemma_split_back,
    list_lines, no_line_break, push_list, push_yaml_scalar, split_frontmatter, yaml_scalar_of,
};
use crate::store::serialize_doc::{push_body, with_final_newline};
use crate::text::push_str;

verus! {

/// The `tags` entry: a flow `[]` when there are none, else one item per line.
pub open spec fn tags_lines(tags: Seq<Seq<char>>) -> Seq<char> {
    if tags.len() == 0 {
        "tags: []\n"@
    } else {
        "tags:\n"@ + list_lines("  - "@, tags)
    }
}

/// The `impl-path` entry of the freshness map: absent when there are no paths, a
/// scalar for one path, a list for several.
pub open spec fn impl_path_lines(paths: Seq<Seq<char>>) -> Seq<char> {
    if paths.len() == 0 {
        seq![]
    } else if paths.len() == 1 {
        "  impl-path: "@ + yaml_scalar_of(paths[0]) + "\n"@
    } else {
        "  impl-path:\n"@ + list_lines("    - "@, paths)
    }
}

/// The `freshness` entry: a flow `{}` when nothing is recorded, else the keys
/// that are present, in the order `last-verified`, `impl-path`, `score`. The
/// score is written as its given YAML text.
pub open spec fn freshness_lines(f: FreshnessView<String>) -> Seq<char> {
    if freshness_is_empty(f) {
        "freshness: {}\n"@
    } else {
        "freshness:\n"@ + match f.last_verified {
            Some(v) => "  last-verified: "@ + yaml_scalar_of(v) + "\n"@,
            None => seq![],
        } + impl_path_lines(f.impl_path) + match f.score {
            Some(s) => "  score: "@ + s@ + "\n"@,
            None => seq![],
        }
    }
}

/// The front matter lines of an atom: `id`, `status`, `title`, `tags` and
/// `freshness`, in this order.
pub open spec fn atom_front_lines(a: AtomView<String>) -> Seq<char> {
    "id: "@ + yaml_scalar_of(a.id) + "\n"@ + "status: "@ + status_name(a.status) + "\n"@
        + "title: "@ + yaml_scalar_of(a.title) + "\n"@ + tags_lines(a.tags) + freshness_lines(
        a.freshness,
    )
}

/// The markdown text of an atom whose score is already written as YAML text: its
/// front matter lines between `---` lines, then the body.
pub open spec fn atom_markdown(a: AtomView<String>) -> Seq<char> {
    "---\n"@ + atom_front_lines(a) + "---\n"@ + with_final_newline(a.body)
}

/// Appends the `tags` entry.
fn push_tags(out: &mut String, tags: &Vec<String>)
    ensures
        final(out)@ == old(out)@ + tags_lines(strs(tags@)),
{
    if tags.len() == 0 {
        push_str(out, "tags: []\n");
    } else {
        push_str(out, "tags:\n");
        push_list(out, "  - ", tags.as_slice());
    }
}

/// Appends the `impl-path` entry of the freshness map.
fn push_impl_paths(out: &mut String, paths: &ImplPaths)
    ensures
        final(out)@ == old(out)@ + impl_path_lines(paths@),
{
    let list = paths.as_slice();
    if list.len() == 1 {
        push_str(out, "  impl-path: ");
        push_yaml_scalar(out, list[0].as_str());
        push_str(out, "\n");
    } else if list.len() > 1 {
        push_str(out, "  impl-path:\n");
        push_list(out, "    - ", list);
    }
}

/// Appends the `freshness` entry.
fn push_freshness(out: &mut String, f: &Freshness<String>)
    ensures
        final(out)@ == old(out)@ + freshness_lines(f@),
{
    let ghost head = out@;
    if f.is_empty() {
        push_str(out, "freshness: {}\n");
    } else {
        push_str(out, "freshness:\n");
        let ghost h1 = out@;
        if let Some(v) = &f.last_verified {
            push_str(out, "  last-verified: ");
            push_yaml_scalar(out, v.as_str());
            push_str(out, "\n");
        }
        let ghost h2 = out@;
        push_impl_paths(out, &f.impl_path);
        let ghost h3 = out@;
        if let Some(s) = &f.score {
            push_str(out, "  score: ");
            push_str(out, s.as_str());
            push_str(out, "\n");
        }
        assert(out@ =~= head + freshness_lines(f@));
    }
}

/// Appends the front matter lines of an atom.
fn push_front_lines(out: &mut String, atom: &Atom<String>)
    ensures
        final(out)@ == old(out)@ + atom_front_lines(atom@),
{
    let ghost head = out@;
    push_str(out, "id: ");
    push_yaml_scalar(out, atom.id.as_str());
    push_str(out, "\n");
    push_str(out, "status: ");
    push_str(out, atom.status.as_str());
    push_str(out, "\n");
    push_str(out, "title: ");
    push_yaml_scalar(out, atom.title.as_str());
    push_str(out, "\n");
    let ghost mid = out@;
    assert(mid =~= head + ("id: "@ + yaml_scalar_of(atom@.id) + "\n"@ + "status: "@ + status_name(
        atom@.status,
    ) + "\n"@ + "title: "@ + yaml_scalar_of(atom@.title) + "\n"@));
    push_tags(out, &atom.tags);
    push_freshness(out, &atom.freshness);
    assert(out@ =~= head + atom_front_lines(atom@));
}

/// An atom as markdown. The score is given as the YAML text it is written as.
pub fn to_markdown(atom: &Atom<String>) -> (r: String)
    ensures
        r@ == atom_markdown(atom@),
{
    let mut out = String::new();
    push_str(&mut out, "---\n");
    push_front_lines(&mut out, atom);
    push_str(&mut out, "---\n");
    push_body(&mut out, atom.body.as_str());
    assert(out@ =~= atom_markdown(atom@));
    out
}

/// What reading an atom file's text into front matter and body gives: the
/// parts, or a parse error naming the atom when the text has no front matter.
pub open spec fn frontmatter_parts(id: Seq<char>, text: Seq<char>) -> Result<
    (Seq<char>, Seq<char>),
    StoreErrorView,
> {
    match frontmatter_of(text) {
        Some(parts) => Ok(parts),
        None => Err(
            StoreErrorView::Parse { id, message: "missing YAML frontmatter delimited by ---"@ },
        ),
    }
}

/// Splits the text of the atom file of `id` into its YAML front matter and body.
pub fn split_atom_text(id: &str, text: &str) -> (r: Result<(String, String), StoreError>)
    ensures
        match r {
            Ok((yaml, body)) => frontmatter_parts(id@, text@) == Ok::<
                (Seq<char>, Seq<char>),
                StoreErrorView,
            >((yaml@, body@)),
            Err(e) => frontmatter_parts(id@, text@) == Err::<(Seq<char>, Seq<char>), StoreErrorView>(
                e@,
            ),
        },
{
    match split_frontmatter(text) {
        Some(parts) => Ok(parts),
        None => Err(
            StoreError::Parse {
                id: String::from_str(id),
                message: String::from_str("missing YAML frontmatter delimited by ---"),
            },
        ),
    }
}

/// An atom read from the file of `id` is accepted only when it carries that id.
pub open spec fn read_check<S>(path_id: Seq<char>, a: AtomView<S>) -> Option<StoreErrorView> {
    if a.id == path_id {
        None
    } else {
        Some(StoreErrorView::IdMismatch { path_id, atom_id: a.id })
    }
}

/// Accepts an atom read from the file of `path_id` when its id is `path_id`.
pub fn check_read_id<S>(path_id: &str, atom: Atom<S>) -> (r: Result<Atom<S>, StoreError>)
    ensures
        match r {
            Ok(a) => read_check(path_id@, atom@) is None && a@ == atom@,
            Err(e) => read_check(path_id@, atom@) == Some(e@),
        },
{
    if crate::text::str_eq(atom.id.as_str(), path_id) {
        Ok(atom)
    } else {
        Err(StoreError::IdMismatch { path_id: String::from_str(path_id), atom_id: atom.id })
    }
}

/// A line of a prefix that does not start with `-` and a YAML scalar.
proof fn lemma_scalar_line(prefix: Seq<char>, value: Seq<char>)
    requires
        prefix.len() > 0,
        prefix[0] != '-',
        no_line_break(prefix),
    ensures
        dash_free_lines(prefix + yaml_scalar_of(value) + "\n"@),
{
    lemma_scalar_one_line(value);
    lemma_line_dash_free(prefix, yaml_scalar_of(value));
}

proof fn lemma_tags_lines_dash_free(tags: Seq<Seq<char>>)
    ensures
        dash_free_lines(tags_lines(tags)),
{
    reveal_strlit("tags: []\n");
    reveal_strlit("tags:\n");
    reveal_strlit("  - ");
    if tags.len() > 0 {
        lemma_list_lines_dash_free("  - "@, tags);
        lemma_dash_free_concat("tags:\n"@, list_lines("  - "@, tags));
    }
}

proof fn lemma_freshness_lines_dash_free(f: FreshnessView<String>)
    requires
        f.score matches Some(s) ==> no_line_break(s@),
    ensures
        dash_free_lines(freshness_lines(f)),
{
    reveal_strlit("freshness: {}\n");
    reveal_strlit("freshness:\n");
    reveal_strlit("  last-verified: ");
    reveal_strlit("  impl-path: ");
    reveal_strlit("  impl-path:\n");
    reveal_strlit("    - ");
    reveal_strlit("  score: ");
    if !freshness_is_empty(f) {
        let lv = match f.last_verified {
            Some(v) => "  last-verified: "@ + yaml_scalar_of(v) + "\n"@,
            None => Seq::<char>::empty(),
        };
        if let Some(v) = f.last_verified {
            lemma_scalar_line("  last-verified: "@, v);
        }
        let ip = impl_path_lines(f.impl_path);
        if f.impl_path.len() == 1 {
            lemma_scalar_line("  impl-path: "@, f.impl_path[0]);
        } else if f.impl_path.len() > 1 {
            lemma_list_lines_dash_free("    - "@, f.impl_path);
            lemma_dash_free_concat("  impl-path:\n"@, list_lines("    - "@, f.impl_path));
        }
        let sc = match f.score {
            Some(s) => "  score: "@ + s@ + "\n"@,
            None => Seq::<char>::empty(),
        };
        if let Some(s) = f.score {
            lemma_line_dash_free("  score: "@, s@);
        }
        lemma_dash_free_concat("freshness:\n"@, lv);
        lemma_dash_free_concat("freshness:\n"@ + lv, ip);
        lemma_dash_free_concat("freshness:\n"@ + lv + ip, sc);
    }
}

/// The front matter lines of an atom never hold a `---` line.
proof fn lemma_atom_front_lines_dash_free(a: AtomView<String>)
    requires
        a.freshness.score matches Some(s) ==> no_line_break(s@),
    ensures
        dash_free_lines(atom_front_lines(a)),
        atom_front_lines(a).len() > 0,
{
    reveal_strlit("id: ");
    reveal_strlit("status: ");
    reveal_strlit("title: ");
    reveal_strlit("draft");
    reveal_strlit("active");
    reveal_strlit("deprecated");
    reveal_strlit("\n");
    let id_line = "id: "@ + yaml_scalar_of(a.id) + "\n"@;
    let status_line = "status: "@ + status_name(a.status) + "\n"@;
    let title_line = "title: "@ + yaml_scalar_of(a.title) + "\n"@;
    lemma_scalar_line("id: "@, a.id);
    lemma_line_dash_free("status: "@, status_name(a.status));
    lemma_scalar_line("title: "@, a.title);
    lemma_tags_lines_dash_free(a.tags);
    lemma_freshness_lines_dash_free(a.freshness);
    lemma_dash_free_concat(id_line, status_line);
    lemma_dash_free_concat(id_line + status_line, title_line);
    lemma_dash_free_concat(id_line + status_line + title_line, tags_lines(a.tags));
    lemma_dash_free_concat(
        id_line + status_line + title_line + tags_lines(a.tags),
        freshness_lines(a.freshness),
    );
    assert(atom_front_lines(a) =~= id_line + status_line + title_line + tags_lines(a.tags)
        + freshness_lines(a.freshness));
}

/// What `to_markdown` writes splits back into the atom's front matter lines and
/// its body, when the body reads back unchanged (it ends with no line break and
/// holds no `---\r\n` line) and the score text fits on one line.
pub proof fn lemma_atom_text_splits_back(a: AtomView<String>)
    requires
        body_reads_back(a.body),
        a.freshness.score matches Some(s) ==> no_line_break(s@),
    ensures
        frontmatter_of(atom_markdown(a)) == Some((atom_front_lines(a).drop_last(), a.body)),
{
    lemma_atom_front_lines_dash_free(a);
    lemma_split_back(atom_front_lines(a), a.body);
}

} // verus!
