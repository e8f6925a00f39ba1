//! Promoting a draft to the true source.
use vstd::prelude::*;

use crate::error::{Error, ErrorView};
use crate::lifecycle::{can_transition, legal_transition};
use crate::model::atom::{Atom, AtomView, FreshnessView};
use crate::model::status::Status;
use crate::model::timestamp::{verified_stamp_of, Timestamp};

verus! {

/// What activating an atom at `now` gives: the atom made `Active`, stamped as
/// verified at `now` with the score `one`, everything else kept; or the refused
/// transition when the atom is not a draft.
pub open spec fn activate_result<S>(atom: AtomView<S>, now: Timestamp, one: S) -> Result<
    AtomView<S>,
    ErrorView,
> {
    if !legal_transition(atom.status, Status::Active) {
        Err(ErrorView::InvalidTransition { id: atom.id, from: atom.status, to: Status::Active })
    } else {
        Ok(
            AtomView {
                status: Status::Active,
                freshness: FreshnessView {
                    last_verified: Some(verified_stamp_of(now)),
                    score: Some(one),
                    ..atom.freshness
                },
                ..atom
            },
        )
    }
}

/// Draft → Active, stamping `last-verified` with `now` and setting the score to
/// `one`, the full score. Keeps `impl-path` and the atom's identity.
pub fn activate<S>(atom: Atom<S>, now: Timestamp, one: S) -> (r: Result<Atom<S>, Error>)
    ensures
        match r {
            Ok(a) => activate_result(atom@, now, one) == Ok::<AtomView<S>, ErrorView>(a@),
            Err(e) => activate_result(atom@, now, one) == Err::<AtomView<S>, ErrorView>(e@),
        },
{
    let mut atom = atom;
    if !can_transition(atom.status, Status::Active) {
        return Err(Error::InvalidTransition { id: atom.id, from: atom.status, to: Status::Active });
    }
    atom.status = Status::Active;
    atom.freshness.last_verified = Some(now.verified_stamp());
    atom.freshness.score = Some(one);
    Ok(atom)
}

/// An atom just activated is `Active`, keeps its id, title, tags, body and
/// paths, and cannot be activated again.
pub proof fn lemma_activate_once<S>(atom: AtomView<S>, now: Timestamp, one: S, later: Timestamp, again: S)
    ensures
        activate_result(atom, now, one) matches Ok(a) ==> {
            &&& a.status == Status::Active
            &&& a.id == atom.id && a.title == atom.title && a.tags == atom.tags && a.body == atom.body
            &&& a.freshness.impl_path == atom.freshness.impl_path
            &&& activate_result(a, later, again) is Err
        },
{
}

/// Only a draft can be activated: activation succeeds exactly when the atom's
/// status is `Draft`, and a refused activation names the atom and its status.
pub proof fn lemma_activate_only_drafts<S>(atom: AtomView<S>, now: Timestamp, one: S)
    ensures
        activate_result(atom, now, one) is Ok <==> atom.status == Status::Draft,
        activate_result(atom, now, one) is Err ==> activate_result(atom, now, one)
            == Err::<AtomView<S>, ErrorView>(
            ErrorView::InvalidTransition { id: atom.id, from: atom.status, to: Status::Active },
        ),
        activate_result(atom, now, one) matches Ok(a) ==> a.freshness.score == Some(one)
            && a.freshness.last_verified == Some(verified_stamp_of(now)) && a.freshness.impl_path
            == atom.freshness.impl_path,
{
}

} // verus!
