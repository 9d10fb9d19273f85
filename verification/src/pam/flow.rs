//! The decision every PAM edit goes through: keep an unchanged document,
//! refuse an invalid or unencodable one, or record the edit in the history
//! and advance the document's revision.
use vstd::prelude::*;

use crate::pam::history::{gesture_view, pushed, EditHistory, HistoryView};
use crate::pam::validate::EditError;
use crate::tabs::{advance_id, spec_advance_id};

verus! {

/// What became of an edit.
#[derive(Clone, Copy, Debug, PartialEq, Eq)]
pub enum EditOutcome {
    /// The edit left the document as it was; nothing is recorded.
    Unchanged,
    /// The edited document fails the PAM checks; the caller restores the
    /// document from before the edit and reports the error.
    Rejected(EditError),
    /// The edited document cannot be encoded or rebuilt; the caller restores
    /// the document from before the edit and reports the encoder's error.
    Unencodable,
    /// The edit is kept and recorded.
    Applied,
}

/// The history after a plain edit of the document `before` is committed.
pub open spec fn committed_view<T>(h: HistoryView<T>, before: T) -> HistoryView<T> {
    HistoryView { undo: pushed(h.undo, before), redo: Seq::empty(), pending: h.pending }
}

/// Settles one edit of the current document. `changed` tells whether the edit
/// changed it, `check` is what the PAM checks say of the edited document,
/// `encodes` whether it encodes and rebuilds, and `before` is the document
/// from before the edit. An applied gesture step remembers `before` once; an
/// applied plain edit commits it; either way the revision advances (wrapping
/// to 1, never 0).
pub fn apply_edit_step<T>(
    history: &mut EditHistory<T>,
    revision: &mut u64,
    before: T,
    changed: bool,
    check: Result<(), EditError>,
    encodes: bool,
    gesture: bool,
) -> (outcome: EditOutcome)
    ensures
        !changed ==> outcome == EditOutcome::Unchanged,
        changed && check is Err ==> outcome == EditOutcome::Rejected(check->Err_0),
        changed && check is Ok && !encodes ==> outcome == EditOutcome::Unencodable,
        changed && check is Ok && encodes ==> outcome == EditOutcome::Applied,
        outcome != EditOutcome::Applied ==> final(history)@ == old(history)@ && *final(revision) == *old(revision),
        outcome == EditOutcome::Applied ==> *final(revision) == spec_advance_id(*old(revision)),
        outcome == EditOutcome::Applied && gesture ==> final(history)@ =~= gesture_view(old(history)@, before),
        outcome == EditOutcome::Applied && !gesture ==> final(history)@ =~= committed_view(old(history)@, before),
{
    if !changed {
        return EditOutcome::Unchanged;
    }
    if let Err(e) = check {
        return EditOutcome::Rejected(e);
    }
    if !encodes {
        return EditOutcome::Unencodable;
    }
    if gesture {
        history.gesture_step(before);
    } else {
        history.commit(before);
    }
    *revision = advance_id(*revision);
    EditOutcome::Applied
}

} // verus!
