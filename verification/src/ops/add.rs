//! Adding new draft atoms from agent-supplied slugs.
use vstd::prelude::*;

use crate::error::{strs, validation_view, Error, ErrorView};
use crate::keyed::{keyed_view, keys_distinct};
use crate::model::atom::{copy_strings, title_body_problem, validate_title_body, Atom, AtomView, Freshness, FreshnessView};
use crate::model::slug::{slug_problem, validate_slug};
use crate::model::status::Status;
use crate::ops::id::{assign_ids, assign_result, lemma_assigned_ids_are_slugs, Occupied};

verus! {

/// One atom to add: its slug becomes its id; it always starts as a draft.
#[derive(Debug, PartialEq, Eq)]
pub struct AddDraft<S> {
    pub slug: String,
    pub title: String,
    pub body: String,
    pub tags: Vec<String>,
    pub freshness: Freshness<S>,
}

pub struct AddDraftView<S> {
    pub slug: Seq<char>,
    pub title: Seq<char>,
    pub body: Seq<char>,
    pub tags: Seq<Seq<char>>,
    pub freshness: FreshnessView<S>,
}

impl<S> View for AddDraft<S> {
    type V = AddDraftView<S>;

    open spec fn view(&self) -> AddDraftView<S> {
        AddDraftView {
            slug: self.slug@,
            title: self.title@,
            body: self.body@,
            tags: strs(self.tags@),
            freshness: self.freshness@,
        }
    }
}

/// The views of a sequence of drafts.
pub open spec fn draft_views<S>(drafts: Seq<AddDraft<S>>) -> Seq<AddDraftView<S>> {
    drafts.map_values(|d: AddDraft<S>| d@)
}

/// The first problem with the drafts at or after index `i`: per draft, the slug is
/// checked first, then the title, then the body.
pub open spec fn draft_problem_from<S>(drafts: Seq<AddDraftView<S>>, i: int) -> Option<ErrorView>
    decreases drafts.len() - i,
{
    if i < 0 || i >= drafts.len() {
        None
    } else {
        match slug_problem(drafts[i].slug) {
            Some(m) => Some(validation_view(i as usize, Some("slug"@), m)),
            None => match title_body_problem(i as usize, drafts[i].title, drafts[i].body) {
                Some(e) => Some(e),
                None => draft_problem_from(drafts, i + 1),
            },
        }
    }
}

/// The atom a draft becomes: a `Draft` whose id is its slug.
pub open spec fn new_draft_atom<S>(d: AddDraftView<S>) -> AtomView<S> {
    AtomView {
        id: d.slug,
        status: Status::Draft,
        title: d.title,
        tags: d.tags,
        freshness: d.freshness,
        body: d.body,
    }
}

/// The ids on disk, as the occupied entries id assignment checks against.
pub open spec fn disk_entries(occupied: Seq<(Seq<char>, Status)>) -> Seq<(Seq<char>, Occupied)> {
    occupied.map_values(|e: (Seq<char>, Status)| (e.0, Occupied::Disk(e.1)))
}

/// What adding drafts gives: the first invalid draft's error; else every slug
/// conflict; else one new draft atom per draft, in order.
pub open spec fn add_result<S>(drafts: Seq<AddDraftView<S>>, occupied: Seq<(Seq<char>, Status)>) -> Result<
    Seq<AtomView<S>>,
    ErrorView,
> {
    match draft_problem_from(drafts, 0) {
        Some(e) => Err(e),
        None => match assign_result(
            drafts.map_values(|d: AddDraftView<S>| d.slug),
            disk_entries(occupied),
        ) {
            Err(e) => Err(e),
            Ok(ids) => Ok(drafts.map_values(|d: AddDraftView<S>| new_draft_atom(d))),
        },
    }
}

/// Validates every draft, uses each slug as its id and makes every atom a draft.
/// `occupied` lists the ids on disk with their status, each id once. No atom is
/// made when any draft is invalid or any slug conflicts.
pub fn add_drafts<S: Copy>(drafts: &[AddDraft<S>], occupied: &Vec<(String, Status)>) -> (r: Result<
    Vec<Atom<S>>,
    Error,
>)
    requires
        keys_distinct(keyed_view(occupied@)),
    ensures
        match r {
            Ok(atoms) => add_result(draft_views(drafts@), keyed_view(occupied@)) == Ok::<
                Seq<AtomView<S>>,
                ErrorView,
            >(atoms@.map_values(|a: Atom<S>| a@)),
            Err(e) => add_result(draft_views(drafts@), keyed_view(occupied@)) == Err::<
                Seq<AtomView<S>>,
                ErrorView,
            >(e@),
        },
{
    let ghost ds = draft_views(drafts@);
    let mut i: usize = 0;
    while i < drafts.len()
        invariant
            i <= drafts@.len(),
            ds == draft_views(drafts@),
            draft_problem_from(ds, 0) == draft_problem_from(ds, i as int),
        decreases drafts@.len() - i,
    {
        assert(ds[i as int] == drafts@[i as int]@);
        match validate_slug(drafts[i].slug.as_str()) {
            Ok(()) => {},
            Err(m) => {
                return Err(Error::validation(i, Some(String::from_str("slug")), m));
            },
        }
        match validate_title_body(i, drafts[i].title.as_str(), drafts[i].body.as_str()) {
            Ok(()) => {},
            Err(e) => {
                return Err(e);
            },
        }
        i = i + 1;
    }
    let ghost occ_view = keyed_view(occupied@);
    let mut occ: Vec<(String, Occupied)> = Vec::new();
    let mut k: usize = 0;
    while k < occupied.len()
        invariant
            k <= occupied@.len(),
            occ_view == keyed_view(occupied@),
            keyed_view(occ@) == disk_entries(occ_view.take(k as int)),
        decreases occupied@.len() - k,
    {
        let ghost before = occ@;
        occ.push((occupied[k].0.clone(), Occupied::Disk(occupied[k].1)));
        assert(occ_view[k as int] == (occupied@[k as int].0@, occupied@[k as int].1));
        assert(keyed_view(occ@) =~= keyed_view(before).push(
            (occupied@[k as int].0@, Occupied::Disk(occupied@[k as int].1)),
        ));
        assert(keyed_view(occ@) =~= disk_entries(occ_view.take(k + 1)));
        k = k + 1;
    }
    assert(occ_view.take(k as int) =~= occ_view);
    assert(keys_distinct(keyed_view(occ@))) by {
        assert forall|a: int, b: int| 0 <= a < b < keyed_view(occ@).len() implies keyed_view(
            occ@,
        )[a].0 != keyed_view(occ@)[b].0 by {
            assert(keyed_view(occ@)[a].0 == occ_view[a].0);
            assert(keyed_view(occ@)[b].0 == occ_view[b].0);
        }
    }
    let mut slugs: Vec<String> = Vec::new();
    let mut j: usize = 0;
    while j < drafts.len()
        invariant
            j <= drafts@.len(),
            ds == draft_views(drafts@),
            strs(slugs@) == ds.take(j as int).map_values(|d: AddDraftView<S>| d.slug),
        decreases drafts@.len() - j,
    {
        let ghost before = slugs@;
        slugs.push(drafts[j].slug.clone());
        assert(ds[j as int].slug == drafts@[j as int].slug@);
        assert(strs(slugs@) =~= strs(before).push(ds[j as int].slug));
        assert(strs(slugs@) =~= ds.take(j + 1).map_values(|d: AddDraftView<S>| d.slug));
        j = j + 1;
    }
    assert(ds.take(j as int) =~= ds);
    let ghost slug_views = ds.map_values(|d: AddDraftView<S>| d.slug);
    proof {
        lemma_assigned_ids_are_slugs(slug_views, disk_entries(occ_view));
    }
    match assign_ids(&slugs, &occ) {
        Err(e) => {
            return Err(e);
        },
        Ok(_) => {},
    }
    let mut atoms: Vec<Atom<S>> = Vec::new();
    let mut n: usize = 0;
    while n < drafts.len()
        invariant
            n <= drafts@.len(),
            ds == draft_views(drafts@),
            atoms@.map_values(|a: Atom<S>| a@) == ds.take(n as int).map_values(
                |d: AddDraftView<S>| new_draft_atom(d),
            ),
        decreases drafts@.len() - n,
    {
        let d = &drafts[n];
        let atom = Atom {
            id: d.slug.clone(),
            status: Status::Draft,
            title: d.title.clone(),
            tags: copy_strings(&d.tags),
            freshness: d.freshness.clone(),
            body: d.body.clone(),
        };
        assert(atom@ == new_draft_atom(ds[n as int]));
        let ghost before = atoms@;
        atoms.push(atom);
        assert(atoms@.map_values(|a: Atom<S>| a@) =~= before.map_values(|a: Atom<S>| a@).push(
            new_draft_atom(ds[n as int]),
        ));
        assert(atoms@.map_values(|a: Atom<S>| a@) =~= ds.take(n + 1).map_values(
            |d: AddDraftView<S>| new_draft_atom(d),
        ));
        n = n + 1;
    }
    assert(ds.take(n as int) =~= ds);
    Ok(atoms)
}

} // verus!
