//! Where atoms and documents live under a project root. Paths are `/`-separated.
use vstd::prelude::*;

use crate::text::{chars_of, push_char, push_str, str_eq};

verus! {

/// `base` joined with the component `comp`, as `Path::join` joins on Unix: an
/// absolute `comp` (starting with `/`) replaces `base`; otherwise a separating `/`
/// is added unless `base` is empty or already ends with one.
pub open spec fn join_path(base: Seq<char>, comp: Seq<char>) -> Seq<char> {
    if comp.len() > 0 && comp[0] == '/' {
        comp
    } else if base.len() == 0 {
        comp
    } else if base.last() == '/' {
        base + comp
    } else {
        base + seq!['/'] + comp
    }
}

/// `base` joined with `comp`.
fn join(base: &str, comp: &str) -> (r: String)
    ensures
        r@ == join_path(base@, comp@),
{
    let c = chars_of(comp);
    if c.len() > 0 && c[0] == '/' {
        return String::from_str(comp);
    }
    let b = chars_of(base);
    let mut out = String::from_str(base);
    if b.len() > 0 && b[b.len() - 1] != '/' {
        push_char(&mut out, '/');
    }
    push_str(&mut out, comp);
    out
}

/// The namespace directory of a root.
pub open spec fn namespace_dir_of(root: Seq<char>) -> Seq<char> {
    join_path(root, "opencanon"@)
}

/// The atoms directory of a root.
pub open spec fn atoms_dir_of(root: Seq<char>) -> Seq<char> {
    join_path(namespace_dir_of(root), "atoms"@)
}

/// The composed documents directory of a root.
pub open spec fn docs_dir_of(root: Seq<char>) -> Seq<char> {
    join_path(namespace_dir_of(root), "docs"@)
}

/// `<root>/opencanon`.
pub fn namespace_dir(root: &str) -> (r: String)
    ensures
        r@ == namespace_dir_of(root@),
{
    join(root, "opencanon")
}

/// `<root>/opencanon/atoms`.
pub fn atoms_dir(root: &str) -> (r: String)
    ensures
        r@ == atoms_dir_of(root@),
{
    let ns = namespace_dir(root);
    join(ns.as_str(), "atoms")
}

/// `<root>/opencanon/atoms/<id>.md`.
pub fn atom_path(root: &str, id: &str) -> (r: String)
    ensures
        r@ == join_path(atoms_dir_of(root@), id@ + ".md"@),
{
    let dir = atoms_dir(root);
    let mut name = String::from_str(id);
    push_str(&mut name, ".md");
    join(dir.as_str(), name.as_str())
}

/// `<root>/opencanon/atoms/.<id>.md.tmp`: where an atom is written before it
/// takes the place of its file.
pub fn atom_tmp_path(root: &str, id: &str) -> (r: String)
    ensures
        r@ == join_path(atoms_dir_of(root@), "."@ + id@ + ".md.tmp"@),
{
    let dir = atoms_dir(root);
    let mut name = String::from_str(".");
    push_str(&mut name, id);
    push_str(&mut name, ".md.tmp");
    join(dir.as_str(), name.as_str())
}

/// `<root>/opencanon/atoms/<id>.md.bak`: where the old file of an atom is kept
/// while the new one takes its place.
pub fn atom_backup_path(root: &str, id: &str) -> (r: String)
    ensures
        r@ == join_path(atoms_dir_of(root@), id@ + ".md.bak"@),
{
    let dir = atoms_dir(root);
    let mut name = String::from_str(id);
    push_str(&mut name, ".md.bak");
    join(dir.as_str(), name.as_str())
}

/// `<root>/opencanon/docs`.
pub fn docs_dir(root: &str) -> (r: String)
    ensures
        r@ == docs_dir_of(root@),
{
    let ns = namespace_dir(root);
    join(ns.as_str(), "docs")
}

/// `<root>/opencanon/docs/<id>.md`.
pub fn doc_path(root: &str, id: &str) -> (r: String)
    ensures
        r@ == join_path(docs_dir_of(root@), id@ + ".md"@),
{
    let dir = docs_dir(root);
    let mut name = String::from_str(id);
    push_str(&mut name, ".md");
    join(dir.as_str(), name.as_str())
}

/// The atom id a file name stands for: a non-hidden `<id>.md` with a non-empty id.
pub open spec fn atom_id_of_filename(name: Seq<char>) -> Option<Seq<char>> {
    if name.len() > 0 && name[0] == '.' {
        None
    } else if name.len() > 3 && name.subrange(name.len() - 3, name.len() as int) == ".md"@ {
        Some(name.subrange(0, name.len() - 3))
    } else {
        None
    }
}

/// The atom id of a file name in the atoms directory, if it names one.
pub fn atom_id_from_filename(name: &str) -> (r: Option<String>)
    ensures
        match r {
            Some(id) => atom_id_of_filename(name@) == Some(id@),
            None => atom_id_of_filename(name@) is None,
        },
{
    let v = chars_of(name);
    if v.len() > 0 && v[0] == '.' {
        return None;
    }
    let n = v.len();
    if n > 3 {
        let tail = crate::text::slice_chars(v.as_slice(), n - 3, n);
        let tail_s = crate::text::string_of(tail.as_slice());
        if str_eq(tail_s.as_str(), ".md") {
            let head = crate::text::slice_chars(v.as_slice(), 0, n - 3);
            return Some(crate::text::string_of(head.as_slice()));
        }
    }
    proof {
        reveal_strlit(".md");
    }
    None
}

} // verus!
