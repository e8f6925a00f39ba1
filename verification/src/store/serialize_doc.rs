//! The text format of composed documents: YAML front matter, then the body.
use vstd::prelude::*;

use crate::model::composed::{ComposedDoc, ComposedDocView};
use crate::store::scalar::{
    body_reads_back, dash_free_lines, frontmatter_of, lemma_dash_free_concat,
    lemma_list_lines_dash_free, lemma_line_dash_free, lemma_scalar_one_line, lemma_split_back,
    list_lines, push_list, push_yaml_scalar, yaml_scalar_of,
};
use crate::text::{chars_of, push_str};

verus! {

/// `body`, ending with exactly the line breaks it has, plus one when it has none at the end.
pub open spec fn with_final_newline(body: Seq<char>) -> Seq<char> {
    if body.len() > 0 && body.last() == '\n' {
        body
    } else {
        body + "\n"@
    }
}

/// The front matter lines of a composed document: `id`, `title` and `atoms`, in
/// this order.
pub open spec fn doc_front_lines(d: ComposedDocView) -> Seq<char> {
    "id: "@ + yaml_scalar_of(d.id) + "\n"@ + "title: "@ + yaml_scalar_of(d.title) + "\n"@
        + "atoms:\n"@ + list_lines("  - "@, d.atoms)
}

/// The markdown text of a composed document: its front matter lines between `---`
/// lines, then the body.
pub open spec fn doc_markdown(d: ComposedDocView) -> Seq<char> {
    "---\n"@ + doc_front_lines(d) + "---\n"@ + with_final_newline(d.body)
}

/// Appends the body and a final line break when it does not end with one.
pub fn push_body(out: &mut String, body: &str)
    ensures
        final(out)@ == old(out)@ + with_final_newline(body@),
{
    let v = chars_of(body);
    push_str(out, body);
    if !(v.len() > 0 && v[v.len() - 1] == '\n') {
        push_str(out, "\n");
    }
}

/// A composed document as markdown.
pub fn to_markdown(doc: &ComposedDoc) -> (r: String)
    ensures
        r@ == doc_markdown(doc@),
{
    let mut out = String::new();
    push_str(&mut out, "---\n");
    push_str(&mut out, "id: ");
    push_yaml_scalar(&mut out, doc.id.as_str());
    push_str(&mut out, "\n");
    push_str(&mut out, "title: ");
    push_yaml_scalar(&mut out, doc.title.as_str());
    push_str(&mut out, "\n");
    push_str(&mut out, "atoms:\n");
    push_list(&mut out, "  - ", doc.atoms.as_slice());
    push_str(&mut out, "---\n");
    push_body(&mut out, doc.body.as_str());
    out
}

/// The front matter lines of a composed document never hold a `---` line.
proof fn lemma_doc_front_lines_dash_free(d: ComposedDocView)
    ensures
        dash_free_lines(doc_front_lines(d)),
        doc_front_lines(d).len() > 0,
{
    reveal_strlit("id: ");
    reveal_strlit("title: ");
    reveal_strlit("atoms:\n");
    reveal_strlit("  - ");
    let id_line = "id: "@ + yaml_scalar_of(d.id) + "\n"@;
    let title_line = "title: "@ + yaml_scalar_of(d.title) + "\n"@;
    lemma_scalar_one_line(d.id);
    lemma_line_dash_free("id: "@, yaml_scalar_of(d.id));
    lemma_scalar_one_line(d.title);
    lemma_line_dash_free("title: "@, yaml_scalar_of(d.title));
    lemma_list_lines_dash_free("  - "@, d.atoms);
    lemma_dash_free_concat(id_line, title_line);
    lemma_dash_free_concat(id_line + title_line, "atoms:\n"@);
    lemma_dash_free_concat(id_line + title_line + "atoms:\n"@, list_lines("  - "@, d.atoms));
    assert(doc_front_lines(d) =~= id_line + title_line + "atoms:\n"@ + list_lines("  - "@, d.atoms));
}

/// What `to_markdown` writes for a composed document splits back into its front
/// matter lines and its body, when the body reads back unchanged.
pub proof fn lemma_doc_text_splits_back(d: ComposedDocView)
    requires
        body_reads_back(d.body),
    ensures
        frontmatter_of(doc_markdown(d)) == Some((doc_front_lines(d).drop_last(), d.body)),
{
    lemma_doc_front_lines_dash_free(d);
    lemma_split_back(doc_front_lines(d), d.body);
}

} // verus!
