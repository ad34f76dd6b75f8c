//! Undo and redo.
use vstd::prelude::*;
use crate::app::{ActionKind, App};
use crate::editor::cursor::Cursor;
use crate::editor::document::Document;

verus! {

/// A saved state of the text and the cursor.
#[derive(Debug)]
pub struct UndoState {
    pub lines: Vec<String>,
    pub cursor_x: usize,
    pub cursor_y: usize,
}

/// `s` records the text and the cursor of `a`.
pub open spec fn is_snapshot(s: UndoState, a: App) -> bool {
    &&& s.lines@ == a.document.lines@
    &&& s.cursor_x == a.cursor.x
    &&& s.cursor_y == a.cursor.y
}

/// The stacks of `b` are those of `a` after `a`'s state was saved as an undo
/// step: the step goes on top of the undo stack and the redo stack empties.
pub open spec fn undo_pushed(a: App, b: App) -> bool {
    &&& b.undo_stack@.len() == a.undo_stack@.len() + 1
    &&& b.undo_stack@.drop_last() == a.undo_stack@
    &&& is_snapshot(b.undo_stack@.last(), a)
    &&& b.redo_stack@.len() == 0
}

/// `b` is `a` after its state was saved as an undo step.
pub open spec fn pushed_undo(a: App, b: App) -> bool {
    &&& undo_pushed(a, b)
    &&& b == (App { undo_stack: b.undo_stack, redo_stack: b.redo_stack, ..a })
}

/// `b` is `a` after stepping back (`from` is `a`'s undo stack for undo, its
/// redo stack for redo): the top state of `from` becomes the text and the
/// cursor, and the state left behind goes on top of the other stack. With
/// nothing to step back to only the status bar changes, to `message`.
pub open spec fn stepped_back(a: App, b: App, from: Seq<UndoState>, to: Seq<UndoState>,
    from_after: Seq<UndoState>, to_after: Seq<UndoState>, message: Seq<char>) -> bool {
    if from.len() == 0 {
        &&& b.status_text@ == message
        &&& b.undo_stack@ == a.undo_stack@
        &&& b.redo_stack@ == a.redo_stack@
        &&& b == (App {
            status: true,
            status_text: b.status_text,
            undo_stack: b.undo_stack,
            redo_stack: b.redo_stack,
            ..a
        })
    } else {
        let s = from.last();
        &&& from_after == from.drop_last()
        &&& to_after.len() == to.len() + 1
        &&& to_after.drop_last() == to
        &&& is_snapshot(to_after.last(), a)
        &&& b == (App {
            document: Document { lines: s.lines },
            cursor: Cursor { x: s.cursor_x, y: s.cursor_y },
            undo_stack: b.undo_stack,
            redo_stack: b.redo_stack,
            last_action: ActionKind::Idle,
            ..a
        })
    }
}

/// `b` is `a` after an undo.
pub open spec fn undone(a: App, b: App) -> bool {
    stepped_back(a, b, a.undo_stack@, a.redo_stack@, b.undo_stack@, b.redo_stack@, "nothing to undo"@)
}

/// `b` is `a` after a redo.
pub open spec fn redone(a: App, b: App) -> bool {
    stepped_back(a, b, a.redo_stack@, a.undo_stack@, b.redo_stack@, b.undo_stack@, "nothing to redo"@)
}

impl App {
    /// The current text and cursor.
    fn snapshot(&self) -> (s: UndoState)
        ensures
            is_snapshot(s, *self),
    {
        let lines = self.document.lines.clone();
        proof {
            assert(lines@ =~= self.document.lines@);
        }
        UndoState { lines, cursor_x: self.cursor.x, cursor_y: self.cursor.y }
    }

    /// Saves the current state as an undo step and forgets what could be redone.
    pub fn push_undo(&mut self)
        ensures
            pushed_undo(*old(self), *final(self)),
    {
        let s = self.snapshot();
        self.undo_stack.push(s);
        self.redo_stack.clear();
        proof {
            assert(self.undo_stack@.drop_last() =~= old(self).undo_stack@);
        }
    }

    /// Goes back to the last undo step.
    pub fn undo(&mut self)
        ensures
            undone(*old(self), *final(self)),
    {
        match self.undo_stack.pop() {
            Some(state) => {
                let s = self.snapshot();
                self.redo_stack.push(s);
                self.document.lines = state.lines;
                self.cursor.x = state.cursor_x;
                self.cursor.y = state.cursor_y;
                self.last_action = ActionKind::Idle;
                proof {
                    assert(self.redo_stack@.drop_last() =~= old(self).redo_stack@);
                    assert(self.undo_stack@ =~= old(self).undo_stack@.drop_last());
                }
            },
            None => {
                proof {
                    reveal_strlit("nothing to undo");
                }
                self.show_status("nothing to undo".to_owned());
            },
        }
    }

    /// Goes forward to the last state that was undone.
    pub fn redo(&mut self)
        ensures
            redone(*old(self), *final(self)),
    {
        match self.redo_stack.pop() {
            Some(state) => {
                let s = self.snapshot();
                self.undo_stack.push(s);
                self.document.lines = state.lines;
                self.cursor.x = state.cursor_x;
                self.cursor.y = state.cursor_y;
                self.last_action = ActionKind::Idle;
                proof {
                    assert(self.undo_stack@.drop_last() =~= old(self).undo_stack@);
                    assert(self.redo_stack@ =~= old(self).redo_stack@.drop_last());
                }
            },
            None => {
                proof {
                    reveal_strlit("nothing to redo");
                }
                self.show_status("nothing to redo".to_owned());
            },
        }
    }
}

/// Undoing right after an undo step was saved gives back the saved text and
/// cursor and the undo stack as it was, with that state ready to be redone.
pub proof fn law_undo_after_push(a0: App, a1: App, a2: App)
    requires
        pushed_undo(a0, a1),
        undone(a1, a2),
    ensures
        a2.document.lines@ == a0.document.lines@,
        a2.cursor == a0.cursor,
        a2.undo_stack@ == a0.undo_stack@,
        a2.redo_stack@.len() == 1,
        is_snapshot(a2.redo_stack@[0], a0),
{
    assert(a1.redo_stack@.len() == 0);
    assert(a2.redo_stack@.drop_last() =~= Seq::<UndoState>::empty());
}

/// Redoing right after an undo gives back the text and cursor from before
/// the undo, the redo stack as it was, and an undo stack of the same height.
pub proof fn law_redo_after_undo(a0: App, a1: App, a2: App)
    requires
        a0.undo_stack@.len() > 0,
        undone(a0, a1),
        redone(a1, a2),
    ensures
        a2.document.lines@ == a0.document.lines@,
        a2.cursor == a0.cursor,
        a2.redo_stack@ == a0.redo_stack@,
        a2.undo_stack@.len() == a0.undo_stack@.len(),
        is_snapshot(a2.undo_stack@.last(), a1),
{
}

/// Undo with nothing to undo changes nothing but the status bar.
pub proof fn law_undo_on_empty_history(a0: App, a1: App)
    requires
        a0.undo_stack@.len() == 0,
        undone(a0, a1),
    ensures
        a1.document == a0.document,
        a1.cursor == a0.cursor,
        a1.status,
        a1.status_text@ == "nothing to undo"@,
{
}

} // verus!
