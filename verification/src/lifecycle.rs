//! Legal status transitions.
use vstd::prelude::*;

use crate::model::status::Status;

verus! {

/// The legal transitions: `Draft → Active` and `Active → Deprecated`.
pub open spec fn legal_transition(from: Status, to: Status) -> bool {
    (from == Status::Draft && to == Status::Active) || (from == Status::Active && to
        == Status::Deprecated)
}

/// Whether an atom may move from `from` to `to`.
pub fn can_transition(from: Status, to: Status) -> (r: bool)
    ensures
        r == legal_transition(from, to),
{
    match (from, to) {
        (Status::Draft, Status::Active) => true,
        (Status::Active, Status::Deprecated) => true,
        _ => false,
    }
}

/// No transition leads back to `Draft`.
pub proof fn lemma_no_way_back_to_draft(from: Status)
    ensures
        !legal_transition(from, Status::Draft),
{
}

/// `Deprecated` is final: no transition leaves it.
pub proof fn lemma_deprecated_is_final(to: Status)
    ensures
        !legal_transition(Status::Deprecated, to),
{
}

} // verus!
