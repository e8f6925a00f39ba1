//! Keyword recall over atom bodies and ids.
use vstd::prelude::*;

use crate::error::{strs, validation_view, Error, ErrorView};
use crate::model::atom::Atom;
use crate::ops::filter::{admits, admitted, filter_atoms, ListFilter};
use crate::text::{chars_of, contains, contains_exec, matches_at, trim, trim_str};

verus! {

/// The lower-case form of a string, as `str::to_lowercase` gives it (Unicode
/// lower-case mapping of every character).
pub uninterp spec fn lowercase(s: Seq<char>) -> Seq<char>;

/// `str::to_lowercase`. Its result depends on the string alone; what it is for a
/// given string is left to the name `lowercase`.
#[verifier::external_body]
fn to_lowercase(s: &str) -> (r: String)
    ensures
        r@ == lowercase(s@),
{
    s.to_lowercase()
}

/// The error of a missing or blank keyword at `index`.
pub open spec fn keyword_error(index: int) -> ErrorView {
    validation_view(index as usize, Some("keyword"@), "keyword must be non-empty"@)
}

/// The first keyword at or after `i` that is blank once trimmed.
pub open spec fn first_blank_from(keywords: Seq<Seq<char>>, i: int) -> Option<int>
    decreases keywords.len() - i,
{
    if i < 0 || i >= keywords.len() {
        None
    } else if trim(keywords[i]).len() == 0 {
        Some(i)
    } else {
        first_blank_from(keywords, i + 1)
    }
}

/// The needles of a keyword list: each keyword trimmed and lower-cased. An empty
/// list is refused at index 0, a blank keyword at its index.
pub open spec fn needles_of(keywords: Seq<Seq<char>>) -> Result<Seq<Seq<char>>, ErrorView> {
    if keywords.len() == 0 {
        Err(keyword_error(0))
    } else {
        match first_blank_from(keywords, 0) {
            Some(i) => Err(keyword_error(i)),
            None => Ok(keywords.map_values(|k: Seq<char>| lowercase(trim(k)))),
        }
    }
}

/// Some needle occurs in `hay`.
pub open spec fn any_contained(hay: Seq<char>, needles: Seq<Seq<char>>) -> bool {
    exists|j: int| 0 <= j < needles.len() && contains(hay, #[trigger] needles[j])
}

/// An atom is recalled when its lower-cased body or id holds a needle. Its title
/// and tags take no part.
pub open spec fn recalled<S>(a: Atom<S>, needles: Seq<Seq<char>>) -> bool {
    any_contained(lowercase(a.body@), needles) || any_contained(lowercase(a.id@), needles)
}

/// The recalled atoms, in their order.
pub open spec fn recalled_atoms<S>(atoms: Seq<Atom<S>>, needles: Seq<Seq<char>>) -> Seq<Atom<S>>
    decreases atoms.len(),
{
    if atoms.len() == 0 {
        seq![]
    } else {
        let rest = recalled_atoms(atoms.drop_last(), needles);
        if recalled(atoms.last(), needles) {
            rest.push(atoms.last())
        } else {
            rest
        }
    }
}

/// What a query returns: the atoms the filter admits whose body or id holds a
/// keyword, in their order; or the keyword error.
pub open spec fn query_result<S>(atoms: Seq<Atom<S>>, keywords: Seq<Seq<char>>, filter: ListFilter) -> Result<
    Seq<Atom<S>>,
    ErrorView,
> {
    match needles_of(keywords) {
        Err(e) => Err(e),
        Ok(needles) => Ok(recalled_atoms(admitted(atoms, filter), needles)),
    }
}

/// The keywords trimmed and lower-cased, or the error of the first blank one.
pub fn needles(keywords: &[String]) -> (r: Result<Vec<String>, Error>)
    ensures
        match r {
            Ok(ns) => needles_of(strs(keywords@)) == Ok::<Seq<Seq<char>>, ErrorView>(strs(ns@)),
            Err(e) => needles_of(strs(keywords@)) == Err::<Seq<Seq<char>>, ErrorView>(e@),
        },
{
    let ghost ks = strs(keywords@);
    if keywords.len() == 0 {
        return Err(
            Error::validation(
                0,
                Some(String::from_str("keyword")),
                String::from_str("keyword must be non-empty"),
            ),
        );
    }
    let mut out: Vec<String> = Vec::new();
    let mut i: usize = 0;
    while i < keywords.len()
        invariant
            i <= keywords@.len(),
            ks == strs(keywords@),
            first_blank_from(ks, 0) == first_blank_from(ks, i as int),
            strs(out@) == ks.take(i as int).map_values(|k: Seq<char>| lowercase(trim(k))),
        decreases keywords@.len() - i,
    {
        let t = trim_str(keywords[i].as_str());
        assert(ks[i as int] == keywords@[i as int]@);
        if t.as_str().is_empty() {
            return Err(
                Error::validation(
                    i,
                    Some(String::from_str("keyword")),
                    String::from_str("keyword must be non-empty"),
                ),
            );
        }
        let needle = to_lowercase(t.as_str());
        let ghost before = out@;
        out.push(needle);
        assert(strs(out@) =~= strs(before).push(lowercase(trim(ks[i as int]))));
        assert(strs(out@) =~= ks.take(i + 1).map_values(|k: Seq<char>| lowercase(trim(k))));
        i = i + 1;
    }
    assert(ks.take(i as int) =~= ks);
    Ok(out)
}

/// Whether some needle occurs in the already lower-cased `folded`.
pub fn contains_any_folded(folded: &str, needles: &[String]) -> (r: bool)
    ensures
        r == any_contained(folded@, strs(needles@)),
{
    let hay = chars_of(folded);
    let mut j: usize = 0;
    while j < needles.len()
        invariant
            j <= needles@.len(),
            hay@ == folded@,
            forall|k: int| 0 <= k < j ==> !contains(folded@, #[trigger] strs(needles@)[k]),
        decreases needles@.len() - j,
    {
        let p = chars_of(needles[j].as_str());
        if contains_exec(hay.as_slice(), p.as_slice()) {
            assert(contains(folded@, strs(needles@)[j as int]));
            return true;
        }
        j = j + 1;
    }
    false
}

/// Whether some needle occurs in the lower-cased `haystack`.
pub fn contains_any(haystack: &str, needles: &[String]) -> (r: bool)
    ensures
        r == any_contained(lowercase(haystack@), strs(needles@)),
{
    let folded = to_lowercase(haystack);
    contains_any_folded(folded.as_str(), needles)
}

/// Whether the atom's body or id holds a needle.
pub fn matches_keyword<S>(atom: &Atom<S>, needles: &[String]) -> (r: bool)
    ensures
        r == recalled(*atom, strs(needles@)),
{
    contains_any(atom.body.as_str(), needles) || contains_any(atom.id.as_str(), needles)
}

/// Filters by `filter`, then keeps the atoms whose body or id contains any keyword
/// (trimmed, case-folded substring). Titles and tags take no part; input order is kept.
pub fn query<S>(atoms: Vec<Atom<S>>, keywords: &[String], filter: ListFilter) -> (r: Result<
    Vec<Atom<S>>,
    Error,
>)
    ensures
        match r {
            Ok(hits) => query_result(atoms@, strs(keywords@), filter) == Ok::<
                Seq<Atom<S>>,
                ErrorView,
            >(hits@),
            Err(e) => query_result(atoms@, strs(keywords@), filter) == Err::<Seq<Atom<S>>, ErrorView>(
                e@,
            ),
        },
{
    let needles = match needles(keywords) {
        Ok(ns) => ns,
        Err(e) => return Err(e),
    };
    let ghost ns = strs(needles@);
    let shown = filter_atoms(atoms, filter);
    let ghost all = shown@;
    let mut out: Vec<Atom<S>> = Vec::new();
    for a in it: shown.into_iter()
        invariant
            it.seq() == all,
            ns == strs(needles@),
            out@ == recalled_atoms(all.take(it.index() as int), ns),
    {
        assert(all.take(it.index() + 1).drop_last() =~= all.take(it.index() as int));
        if matches_keyword(&a, needles.as_slice()) {
            out.push(a);
        }
    }
    assert(all.take(all.len() as int) =~= all);
    Ok(out)
}

/// Whether an atom is recalled depends on its id and body alone: its title, tags
/// and freshness take no part.
pub proof fn lemma_recall_reads_only_id_and_body<S>(a: Atom<S>, b: Atom<S>, needles: Seq<Seq<char>>)
    requires
        a.id@ == b.id@,
        a.body@ == b.body@,
    ensures
        recalled(a, needles) == recalled(b, needles),
{
}

/// A needle found anywhere in the lower-cased body or id recalls the atom, and an
/// atom is recalled only that way.
pub proof fn lemma_recall_is_substring<S>(a: Atom<S>, needles: Seq<Seq<char>>)
    ensures
        recalled(a, needles) <==> exists|j: int, k: int|
            #![trigger matches_at(lowercase(a.body@), k, needles[j])]
            #![trigger matches_at(lowercase(a.id@), k, needles[j])]
            0 <= j < needles.len() && (matches_at(lowercase(a.body@), k, needles[j])
                || matches_at(lowercase(a.id@), k, needles[j])),
{
    if recalled(a, needles) {
        if any_contained(lowercase(a.body@), needles) {
            let j = choose|j: int| 0 <= j < needles.len() && contains(lowercase(a.body@), #[trigger] needles[j]);
            let k = choose|k: int| matches_at(lowercase(a.body@), k, needles[j]);
            assert(matches_at(lowercase(a.body@), k, needles[j]));
        } else {
            let j = choose|j: int| 0 <= j < needles.len() && contains(lowercase(a.id@), #[trigger] needles[j]);
            let k = choose|k: int| matches_at(lowercase(a.id@), k, needles[j]);
            assert(matches_at(lowercase(a.id@), k, needles[j]));
        }
    }
    if exists|j: int, k: int|
        #![trigger matches_at(lowercase(a.body@), k, needles[j])]
        #![trigger matches_at(lowercase(a.id@), k, needles[j])]
        0 <= j < needles.len() && (matches_at(lowercase(a.body@), k, needles[j])
            || matches_at(lowercase(a.id@), k, needles[j])) {
        let (j, k) = choose|j: int, k: int|
            #![trigger matches_at(lowercase(a.body@), k, needles[j])]
            #![trigger matches_at(lowercase(a.id@), k, needles[j])]
            0 <= j < needles.len() && (matches_at(lowercase(a.body@), k, needles[j])
                || matches_at(lowercase(a.id@), k, needles[j]));
        if matches_at(lowercase(a.body@), k, needles[j]) {
            assert(contains(lowercase(a.body@), needles[j]));
        } else {
            assert(contains(lowercase(a.id@), needles[j]));
        }
    }
}

proof fn lemma_recalled_atoms_keeps<S>(atoms: Seq<Atom<S>>, needles: Seq<Seq<char>>, i: int)
    requires
        0 <= i < atoms.len(),
        recalled(atoms[i], needles),
    ensures
        recalled_atoms(atoms, needles).contains(atoms[i]),
    decreases atoms.len(),
{
    let rest = recalled_atoms(atoms.drop_last(), needles);
    if i < atoms.len() - 1 {
        lemma_recalled_atoms_keeps(atoms.drop_last(), needles, i);
        let k = choose|k: int| 0 <= k < rest.len() && rest[k] == atoms.drop_last()[i];
        if recalled(atoms.last(), needles) {
            assert(rest.push(atoms.last())[k] == atoms[i]);
        }
    } else {
        assert(rest.push(atoms.last())[rest.len() as int] == atoms[i]);
    }
}

proof fn lemma_admitted_keeps<S>(atoms: Seq<Atom<S>>, f: ListFilter, i: int)
    requires
        0 <= i < atoms.len(),
        admits(f, atoms[i].status),
    ensures
        exists|k: int| 0 <= k < admitted(atoms, f).len() && admitted(atoms, f)[k] == atoms[i],
    decreases atoms.len(),
{
    let rest = admitted(atoms.drop_last(), f);
    if i < atoms.len() - 1 {
        lemma_admitted_keeps(atoms.drop_last(), f, i);
        let k = choose|k: int| 0 <= k < rest.len() && rest[k] == atoms.drop_last()[i];
        assert(atoms.drop_last()[i] == atoms[i]);
        if admits(f, atoms.last().status) {
            assert(admitted(atoms, f) == rest.push(atoms.last()));
            assert(admitted(atoms, f)[k] == atoms[i]);
        } else {
            assert(admitted(atoms, f) == rest);
            assert(admitted(atoms, f)[k] == atoms[i]);
        }
    } else {
        assert(admitted(atoms, f) == rest.push(atoms.last()));
        assert(admitted(atoms, f)[rest.len() as int] == atoms[i]);
    }
}

/// Recall finds every atom the filter admits whose lower-cased body or id holds a
/// trimmed, lower-cased keyword at any position: such an atom is among the hits.
pub proof fn lemma_query_finds_substrings<S>(
    atoms: Seq<Atom<S>>,
    keywords: Seq<Seq<char>>,
    filter: ListFilter,
    i: int,
    j: int,
    k: int,
)
    requires
        0 <= i < atoms.len(),
        0 <= j < keywords.len(),
        admits(filter, atoms[i].status),
        matches_at(lowercase(atoms[i].body@), k, lowercase(trim(keywords[j])))
            || matches_at(lowercase(atoms[i].id@), k, lowercase(trim(keywords[j]))),
    ensures
        query_result(atoms, keywords, filter) matches Ok(hits) ==> hits.contains(atoms[i]),
{
    if let Ok(needles) = needles_of(keywords) {
        assert(needles[j] == lowercase(trim(keywords[j])));
        lemma_recall_is_substring(atoms[i], needles);
        assert(recalled(atoms[i], needles));
        lemma_admitted_keeps(atoms, filter, i);
        let shown = admitted(atoms, filter);
        let m = choose|m: int| 0 <= m < shown.len() && shown[m] == atoms[i];
        lemma_recalled_atoms_keeps(shown, needles, m);
    }
}

/// Keywords are refused exactly when there are none or one of them is blank once
/// trimmed; the refusal names the first blank keyword (or index 0 for none).
pub proof fn lemma_keywords_refused(keywords: Seq<Seq<char>>)
    ensures
        needles_of(keywords) is Err <==> (keywords.len() == 0 || exists|i: int|
            0 <= i < keywords.len() && trim(#[trigger] keywords[i]).len() == 0),
        needles_of(keywords) matches Ok(ns) ==> ns.len() == keywords.len() && forall|i: int|
            0 <= i < keywords.len() ==> #[trigger] ns[i] == lowercase(trim(keywords[i])),
{
    lemma_first_blank(keywords, 0);
}

proof fn lemma_first_blank(keywords: Seq<Seq<char>>, i: int)
    requires
        0 <= i <= keywords.len(),
    ensures
        first_blank_from(keywords, i) is Some <==> exists|j: int|
            i <= j < keywords.len() && trim(#[trigger] keywords[j]).len() == 0,
        first_blank_from(keywords, i) matches Some(j) ==> i <= j < keywords.len() && trim(
            keywords[j],
        ).len() == 0 && forall|k: int| i <= k < j ==> trim(#[trigger] keywords[k]).len() > 0,
    decreases keywords.len() - i,
{
    if i < keywords.len() {
        lemma_first_blank(keywords, i + 1);
    }
}

} // verus!
