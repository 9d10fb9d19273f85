//! Undo and redo of PAM edits.
//!
//! Each stack keeps at most [`HISTORY_LIMIT`] document states; when a full
//! stack receives another state, its oldest one is dropped.  A pointer gesture
//! remembers the document from before the gesture and commits it once, when
//! the gesture ends.
use vstd::prelude::*;

verus! {

/// How many states each of the undo and redo stacks keeps.
pub const HISTORY_LIMIT: usize = 100;

/// `stack` after `value` was pushed onto it, the oldest state dropped when full.
pub open spec fn pushed<T>(stack: Seq<T>, value: T) -> Seq<T> {
    if stack.len() == HISTORY_LIMIT {
        stack.drop_first().push(value)
    } else {
        stack.push(value)
    }
}

/// The undo/redo state of one open document; `T` is the document state.
pub struct EditHistory<T> {
    undo_stack: Vec<T>,
    redo_stack: Vec<T>,
    pending: Option<T>,
}

/// The abstract state of an [`EditHistory`].
#[verifier::ext_equal]
pub struct HistoryView<T> {
    pub undo: Seq<T>,
    pub redo: Seq<T>,
    pub pending: Option<T>,
}

impl<T> View for EditHistory<T> {
    type V = HistoryView<T>;

    closed spec fn view(&self) -> HistoryView<T> {
        HistoryView { undo: self.undo_stack@, redo: self.redo_stack@, pending: self.pending }
    }
}

/// The history after one step of a pointer gesture whose document before the
/// step was `before`.
pub open spec fn gesture_view<T>(h: HistoryView<T>, before: T) -> HistoryView<T> {
    match h.pending {
        None => HistoryView { undo: h.undo, redo: Seq::empty(), pending: Some(before) },
        Some(_) => h,
    }
}

/// The history after the steps of a gesture, in order.
pub open spec fn after_gesture_steps<T>(h: HistoryView<T>, befores: Seq<T>) -> HistoryView<T>
    decreases befores.len(),
{
    if befores.len() == 0 {
        h
    } else {
        gesture_view(after_gesture_steps(h, befores.drop_last()), befores.last())
    }
}

/// The history after a gesture ends; `changed` tells whether the document
/// differs from the one the gesture started from.
pub open spec fn finished_view<T>(h: HistoryView<T>, changed: bool) -> HistoryView<T> {
    HistoryView {
        undo: match h.pending {
            Some(before) => if changed {
                pushed(h.undo, before)
            } else {
                h.undo
            },
            None => h.undo,
        },
        redo: h.redo,
        pending: None,
    }
}

/// Pushes `value` onto `stack`, dropping the oldest state when the stack is full.
fn push_history<T>(stack: &mut Vec<T>, value: T)
    ensures
        final(stack)@ == pushed(old(stack)@, value),
{
    if stack.len() == HISTORY_LIMIT {
        stack.remove(0);
        assert(stack@ =~= old(stack)@.drop_first());
    }
    stack.push(value);
}

impl<T> EditHistory<T> {
    /// Both stacks hold at most [`HISTORY_LIMIT`] states.
    #[verifier::type_invariant]
    spec fn bounded(&self) -> bool {
        self.undo_stack@.len() <= HISTORY_LIMIT && self.redo_stack@.len() <= HISTORY_LIMIT
    }

    /// An empty history for a freshly opened document.
    pub fn new() -> (h: Self)
        ensures
            h@.undo.len() == 0,
            h@.redo.len() == 0,
            h@.pending is None,
    {
        EditHistory { undo_stack: Vec::new(), redo_stack: Vec::new(), pending: None }
    }

    /// How many edits can be undone.
    pub fn undo_len(&self) -> (n: usize)
        ensures
            n == self@.undo.len(),
    {
        self.undo_stack.len()
    }

    /// How many undone edits can be redone.
    pub fn redo_len(&self) -> (n: usize)
        ensures
            n == self@.redo.len(),
    {
        self.redo_stack.len()
    }

    /// Whether a pointer gesture has started and not yet been committed.
    pub fn has_pending(&self) -> (r: bool)
        ensures
            r == self@.pending is Some,
    {
        self.pending.is_some()
    }

    /// Records a completed edit whose document before the edit was `before`:
    /// it becomes the newest undo state and the redo stack is cleared.
    pub fn commit(&mut self, before: T)
        ensures
            final(self)@.undo == pushed(old(self)@.undo, before),
            final(self)@.redo.len() == 0,
            final(self)@.pending == old(self)@.pending,
    {
        proof {
            use_type_invariant(&*self);
        }
        let mut undo: Vec<T> = Vec::new();
        std::mem::swap(&mut undo, &mut self.undo_stack);
        push_history(&mut undo, before);
        self.undo_stack = undo;
        self.redo_stack = Vec::new();
    }

    /// Records one step of a pointer gesture whose document before this step was
    /// `before`: the first step of a gesture remembers it and clears the redo
    /// stack; later steps change nothing.
    pub fn gesture_step(&mut self, before: T)
        ensures
            old(self)@.pending is None ==> final(self)@.pending == Some(before) && final(self)@.redo.len() == 0
                && final(self)@.undo == old(self)@.undo,
            old(self)@.pending is Some ==> final(self)@ == old(self)@,
            final(self)@ =~= gesture_view(old(self)@, before),
    {
        proof {
            use_type_invariant(&*self);
        }
        if self.pending.is_none() {
            self.pending = Some(before);
            self.redo_stack = Vec::new();
        }
    }

    /// Ends a pointer gesture; `changed` tells whether the document now differs
    /// from the one the gesture started from.  A changed document commits the
    /// remembered state as one undo step.
    pub fn finish_gesture(&mut self, changed: bool)
        ensures
            final(self)@.pending is None,
            final(self)@.redo == old(self)@.redo,
            final(self)@.undo == (match old(self)@.pending {
                Some(before) => if changed {
                    pushed(old(self)@.undo, before)
                } else {
                    old(self)@.undo
                },
                None => old(self)@.undo,
            }),
            final(self)@ =~= finished_view(old(self)@, changed),
    {
        proof {
            use_type_invariant(&*self);
        }
        let mut pending: Option<T> = None;
        std::mem::swap(&mut pending, &mut self.pending);
        match pending {
            Some(before) => {
                if changed {
                    let mut undo: Vec<T> = Vec::new();
                    std::mem::swap(&mut undo, &mut self.undo_stack);
                    push_history(&mut undo, before);
                    self.undo_stack = undo;
                }
            },
            None => {},
        }
    }

    /// Starts an undo: drops any unfinished gesture and takes the newest undo
    /// state, which the caller restores.
    pub fn take_undo(&mut self) -> (previous: Option<T>)
        ensures
            final(self)@.pending is None,
            final(self)@.redo == old(self)@.redo,
            old(self)@.undo.len() == 0 ==> previous is None && final(self)@.undo == old(self)@.undo,
            old(self)@.undo.len() > 0 ==> previous == Some(old(self)@.undo.last()) && final(self)@.undo
                == old(self)@.undo.drop_last(),
    {
        proof {
            use_type_invariant(&*self);
        }
        self.pending = None;
        let mut undo: Vec<T> = Vec::new();
        std::mem::swap(&mut undo, &mut self.undo_stack);
        let previous = undo.pop();
        self.undo_stack = undo;
        previous
    }

    /// Starts a redo: drops any unfinished gesture and takes the newest redo
    /// state, which the caller restores.
    pub fn take_redo(&mut self) -> (next: Option<T>)
        ensures
            final(self)@.pending is None,
            final(self)@.undo == old(self)@.undo,
            old(self)@.redo.len() == 0 ==> next is None && final(self)@.redo == old(self)@.redo,
            old(self)@.redo.len() > 0 ==> next == Some(old(self)@.redo.last()) && final(self)@.redo
                == old(self)@.redo.drop_last(),
    {
        proof {
            use_type_invariant(&*self);
        }
        self.pending = None;
        let mut redo: Vec<T> = Vec::new();
        std::mem::swap(&mut redo, &mut self.redo_stack);
        let next = redo.pop();
        self.redo_stack = redo;
        next
    }

    /// Completes an undo whose restored document rebuilt: the document that was
    /// current becomes the newest redo state.
    pub fn record_redo(&mut self, current: T)
        ensures
            final(self)@.undo == old(self)@.undo,
            final(self)@.redo == pushed(old(self)@.redo, current),
            final(self)@.pending == old(self)@.pending,
    {
        proof {
            use_type_invariant(&*self);
        }
        let mut redo: Vec<T> = Vec::new();
        std::mem::swap(&mut redo, &mut self.redo_stack);
        push_history(&mut redo, current);
        self.redo_stack = redo;
    }

    /// Completes a redo whose restored document rebuilt: the document that was
    /// current becomes the newest undo state.
    pub fn record_undo(&mut self, current: T)
        ensures
            final(self)@.redo == old(self)@.redo,
            final(self)@.undo == pushed(old(self)@.undo, current),
            final(self)@.pending == old(self)@.pending,
    {
        proof {
            use_type_invariant(&*self);
        }
        let mut undo: Vec<T> = Vec::new();
        std::mem::swap(&mut undo, &mut self.undo_stack);
        push_history(&mut undo, current);
        self.undo_stack = undo;
    }

    /// Undoes one edit of the document `current`: returns the state to restore,
    /// and keeps `current` for redo.  Returns `current` back when nothing can be undone.
    pub fn undo(&mut self, current: T) -> (r: Result<T, T>)
        ensures
            final(self)@.pending is None,
            old(self)@.undo.len() == 0 ==> r == Err::<T, T>(current) && final(self)@.undo == old(self)@.undo
                && final(self)@.redo == old(self)@.redo,
            old(self)@.undo.len() > 0 ==> r == Ok::<T, T>(old(self)@.undo.last()) && final(self)@.undo
                == old(self)@.undo.drop_last() && final(self)@.redo == pushed(old(self)@.redo, current),
    {
        match self.take_undo() {
            Some(previous) => {
                self.record_redo(current);
                Ok(previous)
            },
            None => Err(current),
        }
    }

    /// Redoes one undone edit of the document `current`: returns the state to
    /// restore, and keeps `current` for undo.  Returns `current` back when
    /// nothing can be redone.
    pub fn redo(&mut self, current: T) -> (r: Result<T, T>)
        ensures
            final(self)@.pending is None,
            old(self)@.redo.len() == 0 ==> r == Err::<T, T>(current) && final(self)@.undo == old(self)@.undo
                && final(self)@.redo == old(self)@.redo,
            old(self)@.redo.len() > 0 ==> r == Ok::<T, T>(old(self)@.redo.last()) && final(self)@.redo
                == old(self)@.redo.drop_last() && final(self)@.undo == pushed(old(self)@.undo, current),
    {
        match self.take_redo() {
            Some(next) => {
                self.record_undo(current);
                Ok(next)
            },
            None => Err(current),
        }
    }
}

/// Redo reverses undo: undoing an edit of `current` and then redoing from the
/// restored state gives `current` back and leaves the undo stack as it was; the
/// redo stack is as it was too unless it was already full.
pub proof fn lemma_redo_reverses_undo<T>(undo: Seq<T>, redo: Seq<T>, current: T)
    requires
        0 < undo.len() <= HISTORY_LIMIT,
        redo.len() <= HISTORY_LIMIT,
    ensures
        ({
            let previous = undo.last();
            let undo1 = undo.drop_last();
            let redo1 = pushed(redo, current);
            &&& redo1.len() > 0
            &&& redo1.last() == current
            &&& pushed(undo1, previous) == undo
            &&& redo.len() < HISTORY_LIMIT ==> redo1.drop_last() == redo
        }),
{
    let undo1 = undo.drop_last();
    assert(undo1.push(undo.last()) =~= undo);
    if redo.len() < HISTORY_LIMIT {
        assert(redo.push(current).drop_last() =~= redo);
    }
}

/// Undo reverses redo in the same way.
pub proof fn lemma_undo_reverses_redo<T>(undo: Seq<T>, redo: Seq<T>, current: T)
    requires
        undo.len() <= HISTORY_LIMIT,
        0 < redo.len() <= HISTORY_LIMIT,
    ensures
        ({
            let next = redo.last();
            let redo1 = redo.drop_last();
            let undo1 = pushed(undo, current);
            &&& undo1.len() > 0
            &&& undo1.last() == current
            &&& pushed(redo1, next) == redo
            &&& undo.len() < HISTORY_LIMIT ==> undo1.drop_last() == undo
        }),
{
    let redo1 = redo.drop_last();
    assert(redo1.push(redo.last()) =~= redo);
    if undo.len() < HISTORY_LIMIT {
        assert(undo.push(current).drop_last() =~= undo);
    }
}

/// A pointer gesture is one undoable edit: however many steps it takes, a
/// gesture that changed the document adds exactly one undo state, the
/// document from before its first step, and one that changed nothing adds
/// none; either way the gesture is over and redo is emptied.
pub proof fn lemma_gesture_commits_once<T>(h: HistoryView<T>, befores: Seq<T>)
    requires
        h.pending is None,
        befores.len() > 0,
    ensures
        finished_view(after_gesture_steps(h, befores), true).undo == pushed(h.undo, befores[0]),
        finished_view(after_gesture_steps(h, befores), false).undo == h.undo,
        finished_view(after_gesture_steps(h, befores), true).pending is None,
        finished_view(after_gesture_steps(h, befores), true).redo.len() == 0,
    decreases befores.len(),
{
    if befores.len() == 1 {
        assert(befores.drop_last().len() == 0);
        assert(after_gesture_steps(h, befores.drop_last()) == h);
    } else {
        lemma_gesture_commits_once(h, befores.drop_last());
        lemma_gesture_steps_pending(h, befores.drop_last());
    }
}

/// However many steps a gesture takes, the document from before its first
/// step stays pending, the undo stack is untouched and redo is empty.
pub proof fn lemma_gesture_steps_pending<T>(h: HistoryView<T>, befores: Seq<T>)
    requires
        h.pending is None,
        befores.len() > 0,
    ensures
        after_gesture_steps(h, befores).pending == Some(befores[0]),
        after_gesture_steps(h, befores).undo == h.undo,
        after_gesture_steps(h, befores).redo.len() == 0,
    decreases befores.len(),
{
    if befores.len() == 1 {
        assert(after_gesture_steps(h, befores.drop_last()) == h);
    } else {
        lemma_gesture_steps_pending(h, befores.drop_last());
    }
}

/// After an edit is committed, undo restores the document from before the edit.
pub proof fn lemma_undo_after_commit<T>(undo: Seq<T>, before: T)
    requires
        undo.len() <= HISTORY_LIMIT,
    ensures
        pushed(undo, before).len() > 0,
        pushed(undo, before).last() == before,
        pushed(undo, before).len() <= HISTORY_LIMIT,
{
}

} // verus!
