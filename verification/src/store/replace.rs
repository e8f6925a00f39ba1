//! Putting a newly written temporary file in the place of an atom's file, keeping
//! a backup of the old file until the new one is in place. The steps themselves
//! (renames, removals) are done by the caller; this decides which comes next.
use vstd::prelude::*;

verus! {

/// How a replacement ended.
#[derive(Clone, Copy, Debug, PartialEq, Eq, Structural)]
pub enum ReplaceOutcome {
    /// The new file is in place.
    Replaced,
    /// The old file could not be moved to its backup; nothing was changed.
    BackUpFailed,
    /// The new file could not be moved in; the old file is put back when there was one.
    MoveInFailed,
}

/// The next step of a replacement.
#[derive(Clone, Copy, Debug, PartialEq, Eq, Structural)]
pub enum ReplaceAction {
    /// Rename the atom's file to its backup path.
    BackUp,
    /// Rename the temporary file to the atom's path.
    MoveIn,
    /// Rename the backup to the atom's path again; how that goes is not looked at.
    Restore,
    /// Remove the temporary file; how that goes is not looked at.
    RemoveTemporary,
    /// Remove the backup; how that goes is not looked at.
    RemoveBackup,
    /// Stop with this outcome; a failure reports the error of the step it names.
    Finish(ReplaceOutcome),
}

/// Where a replacement stands: what was just asked for.
#[derive(Clone, Copy, Debug, PartialEq, Eq, Structural)]
pub enum ReplaceState {
    /// Nothing done yet; the next event tells whether the atom's file exists.
    Start,
    BackingUp,
    MovingWithBackup,
    MovingWithoutBackup,
    Restoring,
    RemovingTemporary(ReplaceOutcome),
    RemovingBackup,
    Done(ReplaceOutcome),
}

/// The next state and step, given the state and the event: at `Start`, whether
/// the atom's file exists; after a step, whether it succeeded.
pub open spec fn replace_next(state: ReplaceState, event: bool) -> (ReplaceState, ReplaceAction) {
    match state {
        ReplaceState::Start => if event {
            (ReplaceState::BackingUp, ReplaceAction::BackUp)
        } else {
            (ReplaceState::MovingWithoutBackup, ReplaceAction::MoveIn)
        },
        ReplaceState::BackingUp => if event {
            (ReplaceState::MovingWithBackup, ReplaceAction::MoveIn)
        } else {
            (
                ReplaceState::Done(ReplaceOutcome::BackUpFailed),
                ReplaceAction::Finish(ReplaceOutcome::BackUpFailed),
            )
        },
        ReplaceState::MovingWithBackup => if event {
            (ReplaceState::RemovingBackup, ReplaceAction::RemoveBackup)
        } else {
            (ReplaceState::Restoring, ReplaceAction::Restore)
        },
        ReplaceState::MovingWithoutBackup => if event {
            (
                ReplaceState::Done(ReplaceOutcome::Replaced),
                ReplaceAction::Finish(ReplaceOutcome::Replaced),
            )
        } else {
            (
                ReplaceState::RemovingTemporary(ReplaceOutcome::MoveInFailed),
                ReplaceAction::RemoveTemporary,
            )
        },
        ReplaceState::Restoring => (
            ReplaceState::RemovingTemporary(ReplaceOutcome::MoveInFailed),
            ReplaceAction::RemoveTemporary,
        ),
        ReplaceState::RemovingTemporary(o) => (ReplaceState::Done(o), ReplaceAction::Finish(o)),
        ReplaceState::RemovingBackup => (
            ReplaceState::Done(ReplaceOutcome::Replaced),
            ReplaceAction::Finish(ReplaceOutcome::Replaced),
        ),
        ReplaceState::Done(o) => (ReplaceState::Done(o), ReplaceAction::Finish(o)),
    }
}

/// Decides the next step of a replacement.
pub fn replace_step(state: ReplaceState, event: bool) -> (r: (ReplaceState, ReplaceAction))
    ensures
        r == replace_next(state, event),
{
    match state {
        ReplaceState::Start => if event {
            (ReplaceState::BackingUp, ReplaceAction::BackUp)
        } else {
            (ReplaceState::MovingWithoutBackup, ReplaceAction::MoveIn)
        },
        ReplaceState::BackingUp => if event {
            (ReplaceState::MovingWithBackup, ReplaceAction::MoveIn)
        } else {
            (
                ReplaceState::Done(ReplaceOutcome::BackUpFailed),
                ReplaceAction::Finish(ReplaceOutcome::BackUpFailed),
            )
        },
        ReplaceState::MovingWithBackup => if event {
            (ReplaceState::RemovingBackup, ReplaceAction::RemoveBackup)
        } else {
            (ReplaceState::Restoring, ReplaceAction::Restore)
        },
        ReplaceState::MovingWithoutBackup => if event {
            (
                ReplaceState::Done(ReplaceOutcome::Replaced),
                ReplaceAction::Finish(ReplaceOutcome::Replaced),
            )
        } else {
            (
                ReplaceState::RemovingTemporary(ReplaceOutcome::MoveInFailed),
                ReplaceAction::RemoveTemporary,
            )
        },
        ReplaceState::Restoring => (
            ReplaceState::RemovingTemporary(ReplaceOutcome::MoveInFailed),
            ReplaceAction::RemoveTemporary,
        ),
        ReplaceState::RemovingTemporary(o) => (ReplaceState::Done(o), ReplaceAction::Finish(o)),
        ReplaceState::RemovingBackup => (
            ReplaceState::Done(ReplaceOutcome::Replaced),
            ReplaceAction::Finish(ReplaceOutcome::Replaced),
        ),
        ReplaceState::Done(o) => (ReplaceState::Done(o), ReplaceAction::Finish(o)),
    }
}

/// The steps taken from `state` as the events come.
pub open spec fn replace_trace(state: ReplaceState, events: Seq<bool>) -> Seq<ReplaceAction>
    decreases events.len(),
{
    if events.len() == 0 {
        seq![]
    } else {
        let (next, action) = replace_next(state, events[0]);
        seq![action] + replace_trace(next, events.drop_first())
    }
}

/// A replacement always stops within five steps, whatever the events: the fifth
/// step at the latest is a `Finish`. It ends `Replaced` exactly when the new file
/// was moved in; a failed move after a backup restores the backup before it stops.
pub proof fn lemma_replace_finishes(events: Seq<bool>)
    requires
        events.len() >= 5,
    ensures
        exists|k: int|
            0 <= k < 5 && #[trigger] replace_trace(ReplaceState::Start, events)[k] is Finish,
        events[0] ==> (replace_trace(ReplaceState::Start, events)[2] == ReplaceAction::Finish(
            ReplaceOutcome::BackUpFailed,
        ) <==> !events[1]),
        events[0] && events[1] ==> replace_trace(ReplaceState::Start, events)[1]
            == ReplaceAction::MoveIn,
        events[0] && events[1] && !events[2] ==> replace_trace(ReplaceState::Start, events)[2]
            == ReplaceAction::Restore && replace_trace(ReplaceState::Start, events)[4]
            == ReplaceAction::Finish(ReplaceOutcome::MoveInFailed),
        events[0] && events[1] && events[2] ==> replace_trace(ReplaceState::Start, events)[3]
            == ReplaceAction::Finish(ReplaceOutcome::Replaced),
        !events[0] ==> replace_trace(ReplaceState::Start, events)[0] == ReplaceAction::MoveIn,
        !events[0] && events[1] ==> replace_trace(ReplaceState::Start, events)[1]
            == ReplaceAction::Finish(ReplaceOutcome::Replaced),
        !events[0] && !events[1] ==> replace_trace(ReplaceState::Start, events)[2]
            == ReplaceAction::Finish(ReplaceOutcome::MoveInFailed),
{
    reveal_with_fuel(replace_trace, 6);
    let e1 = events.drop_first();
    let e2 = e1.drop_first();
    let e3 = e2.drop_first();
    let e4 = e3.drop_first();
    assert(e1[0] == events[1] && e2[0] == events[2] && e3[0] == events[3] && e4[0] == events[4]);
    let t = replace_trace(ReplaceState::Start, events);
    if events[0] && events[1] && !events[2] {
        assert(t[4] is Finish);
    } else if events[0] && events[1] {
        assert(t[3] is Finish);
    } else if events[0] {
        assert(t[2] is Finish);
    } else if events[1] {
        assert(t[1] is Finish);
    } else {
        assert(t[2] is Finish);
    }
}

} // verus!
