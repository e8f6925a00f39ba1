//! Selecting atoms by lifecycle status.
use vstd::prelude::*;

use crate::model::atom::Atom;
use crate::model::status::Status;

verus! {

/// Which atoms a listing shows.
#[derive(Clone, Copy, Debug, PartialEq, Eq, Structural)]
pub enum ListFilter {
    /// The default: the true source only.
    Active,
    Status(Status),
    All,
}

/// Whether a listing with filter `f` shows an atom with status `s`.
pub open spec fn admits(f: ListFilter, s: Status) -> bool {
    match f {
        ListFilter::All => true,
        ListFilter::Active => s == Status::Active,
        ListFilter::Status(t) => s == t,
    }
}

/// The atoms a listing with filter `f` shows, in their order.
pub open spec fn admitted<S>(atoms: Seq<Atom<S>>, f: ListFilter) -> Seq<Atom<S>>
    decreases atoms.len(),
{
    if atoms.len() == 0 {
        seq![]
    } else {
        let rest = admitted(atoms.drop_last(), f);
        if admits(f, atoms.last().status) {
            rest.push(atoms.last())
        } else {
            rest
        }
    }
}

/// Keeps the atoms the filter admits, in their order.
pub fn filter_atoms<S>(atoms: Vec<Atom<S>>, filter: ListFilter) -> (r: Vec<Atom<S>>)
    ensures
        r@ == admitted(atoms@, filter),
{
    let ghost all = atoms@;
    let mut out: Vec<Atom<S>> = Vec::new();
    for a in it: atoms.into_iter()
        invariant
            it.seq() == all,
            out@ == admitted(all.take(it.index() as int), filter),
    {
        assert(all.take(it.index() + 1).drop_last() =~= all.take(it.index() as int));
        let keep = match filter {
            ListFilter::All => true,
            ListFilter::Active => a.status == Status::Active,
            ListFilter::Status(t) => a.status == t,
        };
        if keep {
            out.push(a);
        }
    }
    assert(all.take(all.len() as int) =~= all);
    out
}

/// The default listing and the listing of `Active` atoms show the same atoms.
pub proof fn lemma_default_is_status_active<S>(atoms: Seq<Atom<S>>)
    ensures
        admitted(atoms, ListFilter::Active) == admitted(atoms, ListFilter::Status(Status::Active)),
    decreases atoms.len(),
{
    if atoms.len() > 0 {
        lemma_default_is_status_active(atoms.drop_last());
    }
}

/// Listing everything shows every atom, in order.
pub proof fn lemma_all_shows_everything<S>(atoms: Seq<Atom<S>>)
    ensures
        admitted(atoms, ListFilter::All) == atoms,
    decreases atoms.len(),
{
    if atoms.len() > 0 {
        lemma_all_shows_everything(atoms.drop_last());
        assert(atoms.drop_last().push(atoms.last()) =~= atoms);
    }
}

/// A listing shows only atoms its filter admits, each one from the input.
pub proof fn lemma_admitted_only<S>(atoms: Seq<Atom<S>>, f: ListFilter)
    ensures
        forall|k: int|
            0 <= k < admitted(atoms, f).len() ==> admits(f, #[trigger] admitted(atoms, f)[k].status)
                && atoms.contains(admitted(atoms, f)[k]),
    decreases atoms.len(),
{
    if atoms.len() > 0 {
        lemma_admitted_only(atoms.drop_last(), f);
        let rest = admitted(atoms.drop_last(), f);
        assert forall|k: int| 0 <= k < admitted(atoms, f).len() implies admits(
            f,
            #[trigger] admitted(atoms, f)[k].status,
        ) && atoms.contains(admitted(atoms, f)[k]) by {
            if k < rest.len() {
                assert(admitted(atoms, f)[k] == rest[k]);
                let j = choose|j: int| 0 <= j < atoms.drop_last().len() && atoms.drop_last()[j] == rest[k];
                assert(atoms[j] == rest[k]);
            } else {
                assert(admitted(atoms, f)[k] == atoms[atoms.len() - 1]);
            }
        }
    }
}

/// The default listing shows exactly the `Active` atoms, a listing by status
/// exactly the atoms of that status, and `All` every atom; in each case every
/// shown atom comes from the input and every input atom of the wanted status is
/// shown.
pub proof fn lemma_listing_by_status<S>(atoms: Seq<Atom<S>>, f: ListFilter)
    ensures
        forall|k: int|
            0 <= k < admitted(atoms, f).len() ==> atoms.contains(#[trigger] admitted(atoms, f)[k])
                && match f {
                ListFilter::Active => admitted(atoms, f)[k].status == Status::Active,
                ListFilter::Status(s) => admitted(atoms, f)[k].status == s,
                ListFilter::All => true,
            },
        forall|i: int|
            0 <= i < atoms.len() && match f {
                ListFilter::Active => atoms[i].status == Status::Active,
                ListFilter::Status(s) => atoms[i].status == s,
                ListFilter::All => true,
            } ==> admitted(atoms, f).contains(#[trigger] atoms[i]),
{
    lemma_admitted_only(atoms, f);
    assert forall|i: int|
        0 <= i < atoms.len() && match f {
            ListFilter::Active => atoms[i].status == Status::Active,
            ListFilter::Status(s) => atoms[i].status == s,
            ListFilter::All => true,
        } implies admitted(atoms, f).contains(#[trigger] atoms[i]) by {
        lemma_admitted_contains(atoms, f, i);
    }
}

proof fn lemma_admitted_contains<S>(atoms: Seq<Atom<S>>, f: ListFilter, i: int)
    requires
        0 <= i < atoms.len(),
        admits(f, atoms[i].status),
    ensures
        admitted(atoms, f).contains(atoms[i]),
    decreases atoms.len(),
{
    let rest = admitted(atoms.drop_last(), f);
    if i < atoms.len() - 1 {
        lemma_admitted_contains(atoms.drop_last(), f, i);
        let k = choose|k: int| 0 <= k < rest.len() && rest[k] == atoms.drop_last()[i];
        assert(atoms.drop_last()[i] == atoms[i]);
        if admits(f, atoms.last().status) {
            assert(admitted(atoms, f) == rest.push(atoms.last()));
            assert(admitted(atoms, f)[k] == atoms[i]);
        } else {
            assert(admitted(atoms, f)[k] == atoms[i]);
        }
    } else {
        assert(admitted(atoms, f) == rest.push(atoms.last()));
        assert(admitted(atoms, f)[rest.len() as int] == atoms[i]);
    }
}

} // verus!
