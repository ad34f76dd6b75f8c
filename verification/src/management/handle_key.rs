//! The keyboard: which action a key stands for, and the editor's answer to
//! it. Where the answer needs the disk or the clipboard, it is handed back
//! as an `Effect`, and the matching `finish_*` call takes the outcome.
use vstd::prelude::*;
use crate::app::{strings_view, App, ChangeNotice, Effect};
use crate::editor::document::{paste_cursor, with_lines_pasted};
use crate::management::history_management::{is_snapshot, redone, undo_pushed, undone};
use crate::management::input_management::{
    accepted_completion, backspaced, broke_line, can_accept_completion, can_backspace, can_delete_word,
    can_move_left, can_move_right, can_move_up, can_type, deleted_word, edited, moved_down, moved_left,
    moved_right, moved_up, tabbed, typed, with_text_of, KeyCode, KeyEvent, cursor_in_text, lemma_moves_stay_in_text,
    at_word_start,
};
use crate::management::tab_management::{file_index_from, TabItem};
use crate::app::ActionKind;
use crate::text::{bytes_of, crlf_lines, is_whitespace_char, str_eq, string_pop, string_push};

verus! {

/// What a key press asks of the editor.
#[derive(Debug, Clone, Copy, PartialEq, Eq, Structural)]
pub enum KeyAction {
    CloseCompletions,
    CompletionUp,
    CompletionDown,
    AcceptCompletion,
    Prompt,
    Copy,
    Paste,
    Cut,
    ToggleExplorer,
    Quit,
    CloseTab,
    Save,
    Redo,
    Undo,
    DeleteWord,
    Type(char),
    Tab,
    NewLine,
    Backspace,
    Up,
    Down,
    Left(bool),
    Right(bool),
    /// Esc outside the command line: the command line opens.
    EnterCommand,
    /// A key while the command line is open.
    Command,
    Ignore,
}

/// What the clipboard gave when asked for text.
#[derive(Debug)]
pub enum ClipboardRead {
    /// No clipboard could be opened.
    Unavailable,
    /// The clipboard refused, with this explanation.
    Failed(String),
    /// The clipboard's text.
    Text(String),
}

/// The action of `key` in state `a`: with the command line open, keys go
/// to it; with completions shown, Esc, the arrows, Enter and Tab work the
/// list; with the file-name prompt open, keys go to the prompt; otherwise
/// Esc opens the command line, then the shortcuts, typing and moving.
pub open spec fn key_action(a: App, key: KeyEvent) -> KeyAction {
    let ctrl = key.modifiers.control;
    if a.command_mode {
        KeyAction::Command
    } else if a.completions@.len() > 0 && (key.code is Esc || key.code is Up || key.code is Down || key.code is Enter
        || key.code is Tab) {
        match key.code {
            KeyCode::Esc => KeyAction::CloseCompletions,
            KeyCode::Up => KeyAction::CompletionUp,
            KeyCode::Down => KeyAction::CompletionDown,
            _ => KeyAction::AcceptCompletion,
        }
    } else if a.filename_prompt {
        KeyAction::Prompt
    } else if key.code is Esc {
        KeyAction::EnterCommand
    } else {
        match key.code {
            KeyCode::Char(c) => if ctrl && c == 'c' {
                KeyAction::Copy
            } else if ctrl && c == 'v' {
                KeyAction::Paste
            } else if ctrl && c == 'x' {
                KeyAction::Cut
            } else if ctrl && c == 'e' {
                KeyAction::ToggleExplorer
            } else if ctrl && key.modifiers.alt && c == 'w' {
                KeyAction::Quit
            } else if ctrl && c == 'w' {
                KeyAction::CloseTab
            } else if ctrl && c == 's' {
                KeyAction::Save
            } else if ctrl && key.modifiers.shift && c == 'z' {
                KeyAction::Redo
            } else if ctrl && c == 'z' {
                KeyAction::Undo
            } else if ctrl && c == 'h' {
                KeyAction::DeleteWord
            } else {
                KeyAction::Type(c)
            },
            KeyCode::Backspace => if ctrl {
                KeyAction::DeleteWord
            } else {
                KeyAction::Backspace
            },
            KeyCode::Tab => KeyAction::Tab,
            KeyCode::Enter => KeyAction::NewLine,
            KeyCode::Up => KeyAction::Up,
            KeyCode::Down => KeyAction::Down,
            KeyCode::Left => KeyAction::Left(ctrl),
            KeyCode::Right => KeyAction::Right(ctrl),
            _ => KeyAction::Ignore,
        }
    }
}

/// The change notice an effect carries.
pub open spec fn effect_notice(effect: Effect) -> Option<ChangeNotice> {
    match effect {
        Effect::Notify(n) => Some(n),
        _ => None,
    }
}

/// The tab an effect asks to show.
pub open spec fn effect_tab(effect: Effect) -> Option<TabItem> {
    match effect {
        Effect::Show(t) => Some(t),
        _ => None,
    }
}

/// `effect` passes on a change notice, or there was none.
pub open spec fn notice_or_idle(effect: Effect) -> bool {
    effect is Notify || effect is Idle
}

/// `b` is `a` with the file-name prompt closed and emptied, and no quit
/// waiting for the save.
pub open spec fn prompt_closed(a: App, b: App) -> bool {
    &&& b.filename_input@.len() == 0
    &&& b == (App {
        filename_input: b.filename_input,
        pending_quit_after_save: false,
        filename_prompt: false,
        ..a
    })
}

/// `b` and `effect` are `a` and what is left to do after `key` went to the
/// file-name prompt: a plain character is typed, Backspace deletes one, Esc
/// cancels, and Enter with a name asks for the file to be written there.
pub open spec fn prompt_step(a: App, key: KeyEvent, b: App, effect: Effect) -> bool {
    match key.code {
        KeyCode::Char(c) => if !key.modifiers.control && !key.modifiers.alt {
            &&& b.filename_input@ == a.filename_input@.push(c)
            &&& b == (App { filename_input: b.filename_input, ..a })
            &&& effect is Idle
        } else {
            b == a && effect is Idle
        },
        KeyCode::Backspace => {
            &&& b.filename_input@ == (if a.filename_input@.len() > 0 {
                a.filename_input@.drop_last()
            } else {
                a.filename_input@
            })
            &&& b == (App { filename_input: b.filename_input, ..a })
            &&& effect is Idle
        },
        KeyCode::Esc => {
            &&& b.status_text@ == "canceled file write"@
            &&& prompt_closed(App { status: true, status_text: b.status_text, ..a }, b)
            &&& effect is Idle
        },
        KeyCode::Enter => if a.filename_input@.len() > 0 {
            &&& b.current_file@ == a.filename_input@
            &&& b == (App { current_file: b.current_file, ..a })
            &&& effect matches Effect::WriteAs(p) && p@ == a.filename_input@
        } else {
            prompt_closed(a, b) && effect is Idle
        },
        _ => b == a && effect is Idle,
    }
}

/// `b` and `effect` are `a` and what is left to do after the save
/// shortcut: with a file open it is to be written; without one the
/// file-name prompt opens.
pub open spec fn save_step(a: App, b: App, effect: Effect) -> bool {
    if a.current_file@.len() > 0 {
        &&& b == (App { pending_quit_after_save: false, ..a })
        &&& effect matches Effect::Write(p) && p@ == a.current_file@
    } else {
        &&& b.filename_input@.len() == 0
        &&& b == (App {
            pending_quit_after_save: false,
            filename_prompt: true,
            filename_input: b.filename_input,
            ..a
        })
        &&& effect is Idle
    }
}

/// `b` is `a` after the quit shortcut: refused with a warning while the
/// text differs from what was saved.
pub open spec fn quit_step(a: App, b: App) -> bool {
    if strings_view(a.document.lines@) != strings_view(a.last_saved@) {
        &&& b.status_text@ == "file is unsaved"@
        &&& b == (App { status: true, status_text: b.status_text, ..a })
    } else {
        b == (App { exit: true, ..a })
    }
}

/// `b` and `effect` are `a` and what is left to do after `:wq` or `:x`:
/// the save, with the quit waiting for it to succeed; without a file open
/// the file-name prompt opens first.
pub open spec fn save_quit_step(a: App, b: App, effect: Effect) -> bool {
    if a.current_file@.len() > 0 {
        &&& b == (App { pending_quit_after_save: true, ..a })
        &&& effect matches Effect::Write(p) && p@ == a.current_file@
    } else {
        &&& b.filename_input@.len() == 0
        &&& b == (App {
            pending_quit_after_save: true,
            filename_prompt: true,
            filename_input: b.filename_input,
            ..a
        })
        &&& effect is Idle
    }
}

/// The command typed, without the `:` it may begin with.
pub open spec fn command_name(input: Seq<char>) -> Seq<char> {
    if input.len() > 0 && input[0] == ':' {
        input.drop_first()
    } else {
        input
    }
}

/// `b` and `effect` are `a` and what is left to do after the command
/// `name`: `w` saves, `q` quits (refused while the text is unsaved), `wq`
/// and `x` save and then quit, nothing does nothing, and any other name is
/// reported as unknown.
pub open spec fn command_run(a: App, name: Seq<char>, b: App, effect: Effect) -> bool {
    if name.len() == 0 {
        b == a && effect is Idle
    } else if name == "w"@ {
        save_step(a, b, effect)
    } else if name == "q"@ {
        quit_step(a, b) && effect is Idle
    } else if name == "wq"@ || name == "x"@ {
        save_quit_step(a, b, effect)
    } else {
        &&& b.status_text@ == "unknown command: "@ + name
        &&& b == (App { status: true, status_text: b.status_text, ..a })
        &&& effect is Idle
    }
}

/// `b` is `a` with the command line closed and emptied.
pub open spec fn command_closed(a: App, b: App) -> bool {
    &&& b.command_input@.len() == 0
    &&& b == (App { command_mode: false, command_input: b.command_input, ..a })
}

/// `b` and `effect` are `a` and what is left to do after `key` went to the
/// command line: a plain character is added, Backspace deletes one, Esc
/// closes it, and Enter closes it and runs the command.
pub open spec fn command_step(a: App, key: KeyEvent, b: App, effect: Effect) -> bool {
    match key.code {
        KeyCode::Char(c) => if !key.modifiers.control && !key.modifiers.alt {
            &&& b.command_input@ == a.command_input@.push(c)
            &&& b == (App { command_input: b.command_input, ..a })
            &&& effect is Idle
        } else {
            b == a && effect is Idle
        },
        KeyCode::Backspace => {
            &&& b.command_input@ == (if a.command_input@.len() > 0 {
                a.command_input@.drop_last()
            } else {
                a.command_input@
            })
            &&& b == (App { command_input: b.command_input, ..a })
            &&& effect is Idle
        },
        KeyCode::Esc => command_closed(a, b) && effect is Idle,
        KeyCode::Enter => {
            &&& b.command_input@.len() == 0
            &&& !b.command_mode
            &&& command_run(
                App { command_mode: false, command_input: b.command_input, ..a },
                command_name(a.command_input@),
                b,
                effect,
            )
        },
        _ => b == a && effect is Idle,
    }
}

/// `b` and `effect` are `a` and what is left to do after `action` (of
/// `key`).
pub open spec fn key_step(a: App, action: KeyAction, key: KeyEvent, b: App, effect: Effect) -> bool {
    match action {
        KeyAction::CloseCompletions => {
            &&& b.completions@.len() == 0
            &&& b == (App { completions: b.completions, ..a })
            &&& effect is Idle
        },
        KeyAction::CompletionUp => {
            &&& b == (App {
                completion_selected: if a.completion_selected > 0 {
                    (a.completion_selected - 1) as usize
                } else {
                    0
                },
                ..a
            })
            &&& effect is Idle
        },
        KeyAction::CompletionDown => {
            &&& b == (App {
                completion_selected: if a.completion_selected + 1 <= a.completions@.len() - 1 {
                    (a.completion_selected + 1) as usize
                } else {
                    (a.completions@.len() - 1) as usize
                },
                ..a
            })
            &&& effect is Idle
        },
        KeyAction::AcceptCompletion => accepted_completion(a, b, effect_notice(effect)) && notice_or_idle(effect),
        KeyAction::Prompt => prompt_step(a, key, b, effect),
        KeyAction::Paste => b == a && effect is Paste,
        KeyAction::ToggleExplorer => {
            &&& App::explorer_toggled(a, b)
            &&& if a.show_explorer {
                effect is Idle
            } else {
                effect is ListExplorer
            }
        },
        KeyAction::Quit => quit_step(a, b) && effect is Idle,
        KeyAction::CloseTab => App::closed_current(a, b, effect_tab(effect)) && (effect is Show || effect is Idle),
        KeyAction::Save => save_step(a, b, effect),
        KeyAction::Redo => redone(a, b) && effect is Idle,
        KeyAction::Undo => undone(a, b) && effect is Idle,
        KeyAction::DeleteWord => deleted_word(a, b, effect_notice(effect)) && notice_or_idle(effect),
        KeyAction::Type(c) => typed(a, c, b, effect_notice(effect)) && notice_or_idle(effect),
        KeyAction::Tab => tabbed(a, b) && effect is Idle,
        KeyAction::NewLine => broke_line(a, b, effect_notice(effect)) && notice_or_idle(effect),
        KeyAction::Backspace => backspaced(a, b, effect_notice(effect)) && notice_or_idle(effect),
        KeyAction::Up => moved_up(a, b) && effect is Idle,
        KeyAction::Down => moved_down(a, b) && effect is Idle,
        KeyAction::Left(ctrl) => moved_left(a, ctrl, b) && effect is Idle,
        KeyAction::Right(ctrl) => moved_right(a, ctrl, b) && effect is Idle,
        KeyAction::EnterCommand => {
            &&& b.command_input@.len() == 0
            &&& b == (App { command_mode: true, command_input: b.command_input, ..a })
            &&& effect is Idle
        },
        KeyAction::Command => command_step(a, key, b, effect),
        _ => b == a && effect is Idle,
    }
}

/// Whether the view scrolls to the cursor after `action`: not for the
/// completion list, nor where the step goes on after outside work (a
/// paste, or showing the file of another tab; those scroll when they end).
pub open spec fn scrolls_after(action: KeyAction, effect: Effect) -> bool {
    match action {
        KeyAction::CloseCompletions | KeyAction::CompletionUp | KeyAction::CompletionDown
        | KeyAction::AcceptCompletion | KeyAction::Paste | KeyAction::EnterCommand | KeyAction::Command => false,
        KeyAction::CloseTab => !(effect is Show),
        _ => true,
    }
}

/// `a` with the status bar cleared, when it showed something.
pub open spec fn status_cleared(a: App, r: App) -> bool {
    if a.status {
        &&& r.status_text@.len() == 0
        &&& r == (App { status: false, status_text: r.status_text, ..a })
    } else {
        r == a
    }
}

/// The steps of a key press: `r` is `a` with the status bar cleared, `m`
/// is `r` after the key's action, and `b` is `m` scrolled to the cursor
/// where the action scrolls.
pub open spec fn key_path(a: App, key: KeyEvent, r: App, m: App, b: App, effect: Effect) -> bool {
    let action = key_action(a, key);
    &&& status_cleared(a, r)
    &&& key_step(r, action, key, m, effect)
    &&& if scrolls_after(action, effect) {
        b == m.scrolled(m.viewport_height)
    } else {
        b == m
    }
}

/// The cursor's line after `action` in state `a`.
pub open spec fn line_after(a: App, action: KeyAction) -> int {
    let x = a.cursor.x as int;
    let y = a.cursor.y as int;
    match action {
        KeyAction::NewLine => y + 1,
        KeyAction::Backspace => if x == 0 && y > 0 {
            y - 1
        } else {
            y
        },
        KeyAction::Up => if y > 0 {
            y - 1
        } else {
            0
        },
        KeyAction::Down => if y + 1 < a.document@.len() {
            y + 1
        } else {
            y
        },
        KeyAction::Left(_) => if x == 0 && y > 0 {
            y - 1
        } else {
            y
        },
        KeyAction::Right(_) => if x >= a.document@[y].len() && y + 1 < a.document@.len() {
            y + 1
        } else {
            y
        },
        KeyAction::Undo => if a.undo_stack@.len() > 0 {
            a.undo_stack@.last().cursor_y as int
        } else {
            y
        },
        KeyAction::Redo => if a.redo_stack@.len() > 0 {
            a.redo_stack@.last().cursor_y as int
        } else {
            y
        },
        KeyAction::CloseTab => if empties_tabs(a) {
            0
        } else {
            y
        },
        _ => y,
    }
}

/// Closing the tab of the file on screen leaves no tab.
pub open spec fn empties_tabs(a: App) -> bool {
    file_index_from(a.tabs_list@, a.current_file@, 0) is Some && a.tabs_list@.len() == 1
}

/// The first line scrolled to after `action`: its own, unless the editor
/// is left without a file.
pub open spec fn scroll_after(a: App, action: KeyAction) -> int {
    if action == KeyAction::CloseTab && empties_tabs(a) {
        0
    } else {
        a.scroll_y as int
    }
}

/// Scrolling to line `y` from first line `scroll` in a view of `height`
/// lines stays within `usize`.
pub open spec fn scroll_fits_at(y: int, scroll: int, height: int) -> bool {
    let top = if y < scroll {
        y
    } else {
        scroll
    };
    &&& top + height <= usize::MAX
    &&& height == 0 ==> y < usize::MAX
}

/// `action` is defined in state `a`: what its step needs, and room to
/// scroll afterwards where the view may scroll. Copying and cutting are not
/// defined.
pub open spec fn action_ok(a: App, action: KeyAction) -> bool {
    &&& match action {
        KeyAction::CompletionDown => a.completion_selected < usize::MAX,
        KeyAction::AcceptCompletion => can_accept_completion(a),
        KeyAction::Copy | KeyAction::Cut => false,
        KeyAction::DeleteWord => can_delete_word(a),
        KeyAction::Type(c) => can_type(a, c),
        KeyAction::Tab | KeyAction::NewLine => a.cursor_ok(),
        KeyAction::Backspace => can_backspace(a),
        KeyAction::Up => can_move_up(a),
        KeyAction::Down => a.cursor.y < usize::MAX,
        KeyAction::Left(ctrl) => can_move_left(a, ctrl),
        KeyAction::Right(ctrl) => can_move_right(a, ctrl),
        _ => true,
    }
    &&& may_scroll(action) ==> scroll_fits_at(line_after(a, action), scroll_after(a, action), a.viewport_height as int)
}

/// Whether the view may scroll to the cursor after `action`: all but the
/// completion list, a paste (which scrolls when it ends) and the command
/// line.
pub open spec fn may_scroll(action: KeyAction) -> bool {
    match action {
        KeyAction::CloseCompletions | KeyAction::CompletionUp | KeyAction::CompletionDown
        | KeyAction::AcceptCompletion | KeyAction::Paste | KeyAction::EnterCommand | KeyAction::Command => false,
        _ => true,
    }
}

/// `key` can be handled in state `a`.
pub open spec fn key_ok(a: App, key: KeyEvent) -> bool {
    action_ok(a, key_action(a, key))
}

/// `b` is `a` after the write of its text to the file on screen came back:
/// on success the text counts as saved, the status bar says where, and a
/// quit waiting for the save goes ahead; on failure it says the file does
/// not exist. No quit waits any longer either way.
pub open spec fn save_finished(a: App, ok: bool, b: App) -> bool {
    if ok {
        &&& strings_view(b.last_saved@) == strings_view(a.document.lines@)
        &&& b.status_text@ == "Saved to file: "@ + a.current_file@
        &&& b == (App {
            last_saved: b.last_saved,
            status: true,
            status_text: b.status_text,
            exit: a.exit || a.pending_quit_after_save,
            pending_quit_after_save: false,
            ..a
        })
    } else {
        &&& b.status_text@ == "file does not exist"@
        &&& b == (App { status: true, status_text: b.status_text, pending_quit_after_save: false, ..a })
    }
}

/// `b` is `a` after the write to the file named at the prompt came back:
/// on success the text counts as saved (and a quit waiting for it goes
/// ahead); on failure the status bar says so. The prompt closes either way.
pub open spec fn prompt_save_finished(a: App, ok: bool, b: App) -> bool {
    if ok {
        &&& strings_view(b.last_saved@) == strings_view(a.document.lines@)
        &&& prompt_closed(
            App { last_saved: b.last_saved, exit: a.exit || a.pending_quit_after_save, ..a },
            b,
        )
    } else {
        &&& b.status_text@ == "failed to save"@
        &&& prompt_closed(App { status: true, status_text: b.status_text, ..a }, b)
    }
}

/// `b` and `n` are `a` and what the server is told after pasting `text`
/// at the cursor, as an undo step of its own.
pub open spec fn pasted(a: App, text: Seq<char>, b: App, n: Option<ChangeNotice>) -> bool {
    let parts = crlf_lines(bytes_of(text));
    let c = paste_cursor(a.cursor.x as int, a.cursor.y as int, parts);
    &&& b.document@ == with_lines_pasted(a.document@, a.cursor.x as int, a.cursor.y as int, parts)
    &&& b.cursor.x == c.0
    &&& b.cursor.y == c.1
    &&& edited(a, b, true, ActionKind::Insert)
    &&& App::change_notice_ok(with_text_of(a, b), n, true)
}

/// The line the cursor ends on after pasting `text` in state `a`.
pub open spec fn paste_line(a: App, text: Seq<char>) -> int {
    paste_cursor(a.cursor.x as int, a.cursor.y as int, crlf_lines(bytes_of(text))).1
}

/// Taking back `read` is defined in state `a`: text goes in between two
/// characters, and there is room to scroll afterwards.
pub open spec fn paste_ok(a: App, read: ClipboardRead) -> bool {
    match read {
        ClipboardRead::Text(t) => if t@.len() > 0 {
            a.cursor_ok() && scroll_fits_at(paste_line(a, t@), a.scroll_y as int, a.viewport_height as int)
        } else {
            scroll_fits_at(a.cursor.y as int, a.scroll_y as int, a.viewport_height as int)
        },
        _ => scroll_fits_at(a.cursor.y as int, a.scroll_y as int, a.viewport_height as int),
    }
}

/// `b` and `n` are `a` and what the server is told after the clipboard
/// gave `read`: its text is pasted (nothing happens for no text), a
/// failure shows in the status bar; then the view scrolls to the cursor.
pub open spec fn paste_finished(a: App, read: ClipboardRead, b: App, n: Option<ChangeNotice>) -> bool {
    exists|m: App|
        #![trigger m.scrolled(m.viewport_height)]
        b == m.scrolled(m.viewport_height) && match read {
            ClipboardRead::Unavailable => {
                &&& n is None
                &&& m.status_text@ == "clipboard unavailable"@
                &&& m == (App { status: true, status_text: m.status_text, ..a })
            },
            ClipboardRead::Failed(e) => {
                &&& n is None
                &&& m.status_text@ == "clipboard error: "@ + e@
                &&& m == (App { status: true, status_text: m.status_text, ..a })
            },
            ClipboardRead::Text(t) => if t@.len() == 0 {
                m == a && n is None
            } else {
                pasted(a, t@, m, n)
            },
        }
}

impl App {
    /// The action of `key` in the current state.
    pub fn classify_key(&self, key: KeyEvent) -> (action: KeyAction)
        ensures
            action == key_action(*self, key),
    {
        let ctrl = key.modifiers.control;
        if self.command_mode {
            return KeyAction::Command;
        }
        if self.completions.len() > 0 {
            match key.code {
                KeyCode::Esc => return KeyAction::CloseCompletions,
                KeyCode::Up => return KeyAction::CompletionUp,
                KeyCode::Down => return KeyAction::CompletionDown,
                KeyCode::Enter | KeyCode::Tab => return KeyAction::AcceptCompletion,
                _ => {},
            }
        }
        if self.filename_prompt {
            return KeyAction::Prompt;
        }
        if let KeyCode::Esc = key.code {
            return KeyAction::EnterCommand;
        }
        match key.code {
            KeyCode::Char(c) => if ctrl && c == 'c' {
                KeyAction::Copy
            } else if ctrl && c == 'v' {
                KeyAction::Paste
            } else if ctrl && c == 'x' {
                KeyAction::Cut
            } else if ctrl && c == 'e' {
                KeyAction::ToggleExplorer
            } else if ctrl && key.modifiers.alt && c == 'w' {
                KeyAction::Quit
            } else if ctrl && c == 'w' {
                KeyAction::CloseTab
            } else if ctrl && c == 's' {
                KeyAction::Save
            } else if ctrl && key.modifiers.shift && c == 'z' {
                KeyAction::Redo
            } else if ctrl && c == 'z' {
                KeyAction::Undo
            } else if ctrl && c == 'h' {
                KeyAction::DeleteWord
            } else {
                KeyAction::Type(c)
            },
            KeyCode::Backspace => if ctrl {
                KeyAction::DeleteWord
            } else {
                KeyAction::Backspace
            },
            KeyCode::Tab => KeyAction::Tab,
            KeyCode::Enter => KeyAction::NewLine,
            KeyCode::Up => KeyAction::Up,
            KeyCode::Down => KeyAction::Down,
            KeyCode::Left => KeyAction::Left(ctrl),
            KeyCode::Right => KeyAction::Right(ctrl),
            _ => KeyAction::Ignore,
        }
    }

    /// Handles a key press. Returns the outside work left to do: a change
    /// notice for the language server, a file to write, the clipboard to
    /// read, the explorer to list, or another tab's file to show (after
    /// which the caller scrolls to the cursor).
    pub fn handle_key(&mut self, key: KeyEvent) -> (effect: Effect)
        requires
            key_ok(*old(self), key),
        ensures
            exists|r: App, m: App| #[trigger] key_path(*old(self), key, r, m, *final(self), effect),
    {
        let ghost a = *self;
        let action = self.classify_key(key);
        if self.status {
            self.reset_status();
        }
        let ghost r = *self;
        // The number of lines, a `usize`, bounds the cursor's next line.
        let _line_count = self.document.lines.len();
        let effect = self.key_step(action, key);
        let ghost m = *self;
        let scrolls = match action {
            KeyAction::CloseCompletions | KeyAction::CompletionUp | KeyAction::CompletionDown
            | KeyAction::AcceptCompletion | KeyAction::Paste | KeyAction::EnterCommand | KeyAction::Command => false,
            KeyAction::CloseTab => !matches!(effect, Effect::Show(_)),
            _ => true,
        };
        if scrolls {
            proof {
                lemma_line_after(*self, r, action, key, effect);
            }
            let height = self.viewport_height;
            self.update_scroll(height);
        }
        assert(key_path(a, key, r, m, *self, effect));
        effect
    }

    /// Carries out `action` (of `key`) on the current state, without
    /// clearing the status bar or scrolling.
    fn key_step(&mut self, action: KeyAction, key: KeyEvent) -> (effect: Effect)
        requires
            action == key_action(*old(self), key),
            action_ok(*old(self), action),
        ensures
            key_step(*old(self), action, key, *final(self), effect),
    {
        match action {
            KeyAction::CloseCompletions => {
                self.completions.clear();
                Effect::Idle
            },
            KeyAction::CompletionUp => {
                self.completion_selected = self.completion_selected.saturating_sub(1);
                Effect::Idle
            },
            KeyAction::CompletionDown => {
                let last = self.completions.len() - 1;
                let next = self.completion_selected + 1;
                self.completion_selected = if next <= last {
                    next
                } else {
                    last
                };
                Effect::Idle
            },
            KeyAction::AcceptCompletion => notice_effect(self.accept_completion()),
            KeyAction::Prompt => self.handle_filename_prompt_key(key),
            KeyAction::Paste => Effect::Paste,
            KeyAction::ToggleExplorer => if self.toggle_explorer() {
                Effect::ListExplorer
            } else {
                Effect::Idle
            },
            KeyAction::Quit => {
                if self.is_dirty() {
                    proof {
                        reveal_strlit("file is unsaved");
                    }
                    self.show_status("file is unsaved".to_owned());
                } else {
                    self.exit = true;
                }
                Effect::Idle
            },
            KeyAction::CloseTab => match self.close_current_tab() {
                Some(tab) => Effect::Show(tab),
                None => Effect::Idle,
            },
            KeyAction::Save => self.save_command(),
            KeyAction::Redo => {
                self.redo();
                Effect::Idle
            },
            KeyAction::Undo => {
                self.undo();
                Effect::Idle
            },
            KeyAction::DeleteWord => notice_effect(self.delete_word_before_cursor()),
            KeyAction::Type(c) => notice_effect(self.type_char(c)),
            KeyAction::Tab => {
                self.insert_tab();
                Effect::Idle
            },
            KeyAction::NewLine => notice_effect(self.new_line()),
            KeyAction::Backspace => notice_effect(self.backspace_key()),
            KeyAction::Up => {
                self.move_up();
                Effect::Idle
            },
            KeyAction::Down => {
                self.move_down();
                Effect::Idle
            },
            KeyAction::Left(ctrl) => {
                self.move_left(ctrl);
                Effect::Idle
            },
            KeyAction::Right(ctrl) => {
                self.move_right(ctrl);
                Effect::Idle
            },
            KeyAction::EnterCommand => {
                self.command_mode = true;
                self.command_input = String::new();
                Effect::Idle
            },
            KeyAction::Command => self.handle_command_key(key),
            _ => Effect::Idle,
        }
    }

    /// A key typed while the command line is open.
    pub fn handle_command_key(&mut self, key: KeyEvent) -> (effect: Effect)
        ensures
            command_step(*old(self), key, *final(self), effect),
    {
        match key.code {
            KeyCode::Char(c) => {
                if !key.modifiers.control && !key.modifiers.alt {
                    string_push(&mut self.command_input, c);
                }
                Effect::Idle
            },
            KeyCode::Backspace => {
                string_pop(&mut self.command_input);
                Effect::Idle
            },
            KeyCode::Esc => {
                self.command_mode = false;
                self.command_input = String::new();
                Effect::Idle
            },
            KeyCode::Enter => {
                let input = self.command_input.clone();
                self.command_input = String::new();
                self.command_mode = false;
                self.run_command(input.as_str())
            },
            _ => Effect::Idle,
        }
    }

    /// Runs the command `input` (the command line's text).
    fn run_command(&mut self, input: &str) -> (effect: Effect)
        ensures
            command_run(*old(self), command_name(input@), *final(self), effect),
    {
        let n = input.unicode_len();
        let name: &str = if n > 0 && input.get_char(0) == ':' {
            input.substring_char(1, n)
        } else {
            input
        };
        proof {
            if n > 0 && input@[0] == ':' {
                assert(name@ =~= input@.drop_first());
            }
            reveal_strlit("w");
            reveal_strlit("q");
            reveal_strlit("wq");
            reveal_strlit("x");
            assert(name@ == command_name(input@));
        }
        if name.unicode_len() == 0 {
            Effect::Idle
        } else if str_eq(name, "w") {
            self.save_command()
        } else if str_eq(name, "q") {
            if self.is_dirty() {
                proof {
                    reveal_strlit("file is unsaved");
                }
                self.show_status("file is unsaved".to_owned());
            } else {
                self.exit = true;
            }
            Effect::Idle
        } else if str_eq(name, "wq") || str_eq(name, "x") {
            let effect = self.save_command();
            self.pending_quit_after_save = true;
            effect
        } else {
            proof {
                reveal_strlit("unknown command: ");
            }
            let mut text = "unknown command: ".to_owned();
            text.append(name);
            self.show_status(text);
            Effect::Idle
        }
    }

    /// The save asked for from the keyboard: the file on screen is to be
    /// written, or without one the file-name prompt opens.
    fn save_command(&mut self) -> (effect: Effect)
        ensures
            save_step(*old(self), *final(self), effect),
    {
        self.pending_quit_after_save = false;
        if self.current_file.as_str().as_bytes().len() > 0 {
            proof {
                crate::text::lemma_bytes_empty(self.current_file@);
            }
            Effect::Write(self.current_file.clone())
        } else {
            proof {
                crate::text::lemma_bytes_empty(self.current_file@);
            }
            self.filename_prompt = true;
            self.filename_input = String::new();
            Effect::Idle
        }
    }

    /// A key typed while the file-name prompt is open.
    pub fn handle_filename_prompt_key(&mut self, key: KeyEvent) -> (effect: Effect)
        ensures
            prompt_step(*old(self), key, *final(self), effect),
    {
        match key.code {
            KeyCode::Char(c) => {
                if !key.modifiers.control && !key.modifiers.alt {
                    string_push(&mut self.filename_input, c);
                }
                Effect::Idle
            },
            KeyCode::Backspace => {
                string_pop(&mut self.filename_input);
                Effect::Idle
            },
            KeyCode::Esc => {
                proof {
                    reveal_strlit("canceled file write");
                }
                self.show_status("canceled file write".to_owned());
                self.close_prompt();
                Effect::Idle
            },
            KeyCode::Enter => {
                if self.filename_input.as_str().as_bytes().len() > 0 {
                    proof {
                        crate::text::lemma_bytes_empty(self.filename_input@);
                    }
                    self.current_file = self.filename_input.clone();
                    Effect::WriteAs(self.filename_input.clone())
                } else {
                    proof {
                        crate::text::lemma_bytes_empty(self.filename_input@);
                    }
                    self.close_prompt();
                    Effect::Idle
                }
            },
            _ => Effect::Idle,
        }
    }

    /// Closes and empties the file-name prompt.
    fn close_prompt(&mut self)
        ensures
            prompt_closed(*old(self), *final(self)),
    {
        self.filename_input = String::new();
        self.pending_quit_after_save = false;
        self.filename_prompt = false;
    }

    /// Takes back whether writing the text to the file on screen worked.
    pub fn finish_save(&mut self, ok: bool)
        ensures
            save_finished(*old(self), ok, *final(self)),
    {
        if ok {
            self.last_saved = self.document.lines.clone();
            proof {
                assert(strings_view(self.last_saved@) =~= strings_view(self.document.lines@));
                reveal_strlit("Saved to file: ");
            }
            let mut text = "Saved to file: ".to_owned();
            text.append(self.current_file.as_str());
            self.show_status(text);
            if self.pending_quit_after_save {
                self.exit = true;
            }
        } else {
            proof {
                reveal_strlit("file does not exist");
            }
            self.show_status("file does not exist".to_owned());
        }
        self.pending_quit_after_save = false;
    }

    /// Takes back whether writing the text to the file named at the prompt
    /// worked.
    pub fn finish_prompt_save(&mut self, ok: bool)
        ensures
            prompt_save_finished(*old(self), ok, *final(self)),
    {
        if ok {
            self.last_saved = self.document.lines.clone();
            proof {
                assert(strings_view(self.last_saved@) =~= strings_view(self.document.lines@));
            }
            if self.pending_quit_after_save {
                self.exit = true;
            }
        } else {
            proof {
                reveal_strlit("failed to save");
            }
            self.show_status("failed to save".to_owned());
        }
        self.close_prompt();
    }

    /// Takes back what the clipboard gave: its text is pasted at the cursor
    /// as an undo step of its own, a failure shows in the status bar; then
    /// the view scrolls to the cursor. Returns what the language server is
    /// to be told.
    pub fn finish_paste(&mut self, read: ClipboardRead) -> (n: Option<ChangeNotice>)
        requires
            paste_ok(*old(self), read),
        ensures
            paste_finished(*old(self), read, *final(self), n),
    {
        let ghost a = *self;
        let ghost given = read;
        let n = match read {
            ClipboardRead::Unavailable => {
                proof {
                    reveal_strlit("clipboard unavailable");
                }
                self.show_status("clipboard unavailable".to_owned());
                None
            },
            ClipboardRead::Failed(e) => {
                proof {
                    reveal_strlit("clipboard error: ");
                }
                let mut text = "clipboard error: ".to_owned();
                text.append(e.as_str());
                self.show_status(text);
                None
            },
            ClipboardRead::Text(t) => {
                if t.as_str().as_bytes().len() == 0 {
                    proof {
                        crate::text::lemma_bytes_empty(t@);
                    }
                    None
                } else {
                    proof {
                        crate::text::lemma_bytes_empty(t@);
                    }
                    self.paste_text(t.as_str())
                }
            },
        };
        let ghost m = *self;
        assert(m.scroll_fits(m.viewport_height));
        let height = self.viewport_height;
        self.update_scroll(height);
        assert(b_is_scrolled(m, *self));
        n
    }

    /// Pastes `text` at the cursor as an undo step of its own.
    fn paste_text(&mut self, text: &str) -> (n: Option<ChangeNotice>)
        requires
            old(self).cursor_ok(),
        ensures
            pasted(*old(self), text@, *final(self), n),
            final(self).viewport_height == old(self).viewport_height,
            final(self).scroll_y == old(self).scroll_y,
    {
        self.push_undo();
        let (x, y) = self.document.insert_str(self.cursor.x, self.cursor.y, text);
        self.cursor.x = x;
        self.cursor.y = y;
        let n = self.document_changed(true);
        self.last_action = ActionKind::Insert;
        n
    }
}

/// The cursor and first line after a scrolling step are those that
/// `line_after` and `scroll_after` give, so there is room to scroll.
proof fn lemma_line_after(m: App, r: App, action: KeyAction, key: KeyEvent, effect: Effect)
    requires
        key_step(r, action, key, m, effect),
        action_ok(r, action),
        scrolls_after(action, effect),
        r.document@.len() <= usize::MAX,
    ensures
        m.scroll_fits(m.viewport_height),
{
    match action {
        KeyAction::CloseTab => {
            match file_index_from(r.tabs_list@, r.current_file@, 0) {
                Some(i) => {
                    crate::management::tab_management::lemma_file_index_in_range(r.tabs_list@, r.current_file@, 0);
                    assert(0 <= i < r.tabs_list@.len());
                    r.tabs_list@.remove_ensures(i);
                },
                None => {},
            }
        },
        _ => {},
    }
    assert(m.viewport_height == r.viewport_height);
    assert(m.cursor.y == line_after(r, action));
    assert(m.scroll_y == scroll_after(r, action));
}

/// A quit asked for while the text differs from what was saved is refused
/// with a warning: the editor keeps running and the text stays as it is.
pub proof fn law_quit_refused_while_unsaved(a: App, key: KeyEvent, r: App, m: App, b: App, effect: Effect)
    requires
        key_path(a, key, r, m, b, effect),
        key_action(a, key) == KeyAction::Quit,
        strings_view(a.document.lines@) != strings_view(a.last_saved@),
    ensures
        b.exit == a.exit,
        b.status,
        b.status_text@ == "file is unsaved"@,
        b.document == a.document,
        effect is Idle,
{
}

/// A quit asked for once everything is saved ends the editor.
pub proof fn law_quit_when_saved(a: App, key: KeyEvent, r: App, m: App, b: App, effect: Effect)
    requires
        key_path(a, key, r, m, b, effect),
        key_action(a, key) == KeyAction::Quit,
        strings_view(a.document.lines@) == strings_view(a.last_saved@),
    ensures
        b.exit,
        b.document == a.document,
{
}

/// An edit that starts an undo step (typing that begins a word or follows
/// another kind of step, a line break, a paste, a run of deletions) is
/// reverted by the next undo: the text and the cursor come back.
pub proof fn law_undo_reverts_edit(a: App, b: App, action: ActionKind, u: App)
    requires
        edited(a, b, true, action),
        undone(b, u),
    ensures
        u.document.lines@ == a.document.lines@,
        u.cursor == a.cursor,
        u.redo_stack@.len() == 1,
{
    assert(b.undo_stack@.len() > 0);
    assert(u.redo_stack@.drop_last() =~= Seq::<crate::management::history_management::UndoState>::empty());
}

/// Typing a character is reverted by an undo when it starts an undo step.
pub proof fn law_undo_reverts_typing(a: App, c: char, b: App, n: Option<ChangeNotice>, u: App)
    requires
        typed(a, c, b, n),
        a.last_action != ActionKind::Insert,
        undone(b, u),
    ensures
        u.document.lines@ == a.document.lines@,
        u.cursor == a.cursor,
{
    law_undo_reverts_edit(a, b, ActionKind::Insert, u);
}

/// A line break is reverted by an undo.
pub proof fn law_undo_reverts_line_break(a: App, b: App, n: Option<ChangeNotice>, u: App)
    requires
        broke_line(a, b, n),
        undone(b, u),
    ensures
        u.document.lines@ == a.document.lines@,
        u.cursor == a.cursor,
{
    law_undo_reverts_edit(a, b, ActionKind::Newline, u);
}

/// A paste is reverted by an undo.
pub proof fn law_undo_reverts_paste(a: App, text: Seq<char>, b: App, n: Option<ChangeNotice>, u: App)
    requires
        pasted(a, text, b, n),
        undone(b, u),
    ensures
        u.document.lines@ == a.document.lines@,
        u.cursor == a.cursor,
{
    law_undo_reverts_edit(a, b, ActionKind::Insert, u);
}

/// `b` is `m` scrolled to its cursor.
pub open spec fn b_is_scrolled(m: App, b: App) -> bool {
    b == m.scrolled(m.viewport_height)
}

/// The effect that passes on `n`.
fn notice_effect(n: Option<ChangeNotice>) -> (effect: Effect)
    ensures
        effect_notice(effect) == n,
        notice_or_idle(effect),
{
    match n {
        Some(c) => Effect::Notify(c),
        None => Effect::Idle,
    }
}

/// Keys that open or go to the command line never change the text.
pub proof fn law_command_keys_keep_text(a: App, key: KeyEvent, r: App, m: App, b: App, effect: Effect)
    requires
        key_path(a, key, r, m, b, effect),
        key_action(a, key) == KeyAction::EnterCommand || key_action(a, key) == KeyAction::Command,
    ensures
        b.document == a.document,
        b.last_saved == a.last_saved,
        b.cursor == a.cursor,
{
}

/// `:wq` (or `:x`) with a file open asks for the file to be written, and
/// once that write succeeds the text counts as saved and the editor ends.
pub proof fn law_save_quit_command(a: App, key: KeyEvent, r: App, m: App, b: App, effect: Effect, c: App)
    requires
        key_path(a, key, r, m, b, effect),
        a.command_mode,
        key.code is Enter,
        command_name(a.command_input@) == "wq"@ || command_name(a.command_input@) == "x"@,
        a.current_file@.len() > 0,
        save_finished(b, true, c),
    ensures
        effect matches Effect::Write(p) && p@ == a.current_file@,
        c.exit,
        strings_view(c.last_saved@) == strings_view(a.document.lines@),
        c.document == a.document,
{
    reveal_strlit("wq");
    reveal_strlit("x");
    reveal_strlit("w");
    reveal_strlit("q");
    assert(key_action(a, key) == KeyAction::Command);
    assert(r.command_input == a.command_input && r.document == a.document && r.last_saved == a.last_saved);
    assert(r.current_file == a.current_file && r.exit == a.exit);
    assert(b == m);
    assert("wq"@.len() == 2 && "w"@.len() == 1 && "q"@.len() == 1 && "x"@.len() == 1);
    assert("w"@[0] == 'w' && "q"@[0] == 'q' && "x"@[0] == 'x');
    assert(command_name(r.command_input@) != "w"@);
    assert(command_name(r.command_input@) != "q"@);
    assert(m.pending_quit_after_save);
}

/// `:w` with a file open asks for the file to be written and leaves the
/// editor running.
pub proof fn law_save_command(a: App, key: KeyEvent, r: App, m: App, b: App, effect: Effect)
    requires
        key_path(a, key, r, m, b, effect),
        a.command_mode,
        key.code is Enter,
        command_name(a.command_input@) == "w"@,
        a.current_file@.len() > 0,
    ensures
        effect matches Effect::Write(p) && p@ == a.current_file@,
        b.exit == a.exit,
        b.document == a.document,
{
    reveal_strlit("w");
    assert(key_action(a, key) == KeyAction::Command);
    assert(r.command_input == a.command_input && r.document == a.document && r.last_saved == a.last_saved);
    assert(r.current_file == a.current_file && r.exit == a.exit);
    assert(b == m);
}

/// `:q` is refused with a warning while the text differs from what was
/// saved, and ends the editor otherwise.
pub proof fn law_quit_command(a: App, key: KeyEvent, r: App, m: App, b: App, effect: Effect)
    requires
        key_path(a, key, r, m, b, effect),
        a.command_mode,
        key.code is Enter,
        command_name(a.command_input@) == "q"@,
    ensures
        strings_view(a.document.lines@) != strings_view(a.last_saved@) ==> !b.exit || a.exit,
        strings_view(a.document.lines@) != strings_view(a.last_saved@) ==> b.status_text@ == "file is unsaved"@,
        strings_view(a.document.lines@) == strings_view(a.last_saved@) ==> b.exit,
        b.document == a.document,
{
    reveal_strlit("q");
    reveal_strlit("w");
    assert(key_action(a, key) == KeyAction::Command);
    assert(r.command_input == a.command_input && r.document == a.document && r.last_saved == a.last_saved);
    assert(r.current_file == a.current_file && r.exit == a.exit);
    assert(b == m);
    assert("w"@.len() == 1 && "q"@.len() == 1 && "w"@[0] == 'w' && "q"@[0] == 'q');
    assert(command_name(r.command_input@) != "w"@);
}

/// Every byte of a line is ASCII.
pub open spec fn line_is_ascii(line: Seq<u8>) -> bool {
    forall|i: int| 0 <= i < line.len() ==> line[i] < 0x80
}

/// On an ASCII line every column up to its end lies between characters.
proof fn lemma_ascii_cursor_ok(a: App)
    requires
        cursor_in_text(a),
        line_is_ascii(a.document@[a.cursor.y as int]),
    ensures
        a.cursor_ok(),
{
    let y = a.cursor.y as int;
    let b = a.document@[y];
    assert(b == bytes_of(a.document.lines@[y]@));
    vstd::utf8::encode_utf8_valid_utf8(a.document.lines@[y]@);
    if (a.cursor.x as int) < b.len() {
        crate::text::lemma_ascii_boundary(b, a.cursor.x as int);
    } else {
        vstd::utf8::is_char_boundary_start_end_of_seq(b);
    }
}

/// The arrow keys keep the cursor on the text (on a line, at most at its
/// end), leave the text as it was, end any undo step and drop the hover.
pub proof fn law_arrows_keep_cursor_on_text(a: App, key: KeyEvent, r: App, m: App, b: App, effect: Effect)
    requires
        key_path(a, key, r, m, b, effect),
        cursor_in_text(a),
        key.modifiers.control ==> a.cursor_ok() || line_is_ascii(a.document@[a.cursor.y as int]),
        key_action(a, key) is Up || key_action(a, key) is Down || key_action(a, key) is Left || key_action(
            a,
            key,
        ) is Right,
    ensures
        cursor_in_text(b),
        b.document == a.document,
        b.last_action == ActionKind::Idle,
        b.hover is None && b.hover_pending is None && b.hover_position is None,
{
    let action = key_action(a, key);
    if key.modifiers.control && !a.cursor_ok() {
        lemma_ascii_cursor_ok(a);
    }
    assert(r.cursor == a.cursor && r.document == a.document);
    match action {
        KeyAction::Up => lemma_moves_stay_in_text(r, m, true, false, false, false),
        KeyAction::Down => lemma_moves_stay_in_text(r, m, false, true, false, false),
        KeyAction::Left(ctrl) => {
            assert(ctrl ==> r.cursor_ok());
            if ctrl && a.cursor.x == 0 {
                lemma_moves_stay_in_text(r, m, false, false, true, false);
            } else {
                lemma_moves_stay_in_text(r, m, false, false, true, ctrl);
            }
        },
        KeyAction::Right(ctrl) => {
            if ctrl && a.cursor.x >= a.document@[a.cursor.y as int].len() {
                lemma_moves_stay_in_text(r, m, false, false, false, false);
            } else {
                lemma_moves_stay_in_text(r, m, false, false, false, ctrl);
            }
        },
        _ => {},
    }
    assert(b.cursor == m.cursor && b.document == m.document);
}

/// Typing that goes on with the current word (it neither starts a word
/// nor follows another kind of step) keeps the undo and redo stacks.
pub open spec fn continues_word(a: App, c: char) -> bool {
    a.last_action == ActionKind::Insert && !(at_word_start(a, c) && !is_whitespace_char(c))
}

/// A run of typing from `states[0]`: the `i`-th character goes from
/// `states[i]` to `states[i + 1]`, each going on with the word.
pub open spec fn typing_run(states: Seq<App>, chars: Seq<char>, notices: Seq<Option<ChangeNotice>>) -> bool {
    &&& states.len() == chars.len() + 1
    &&& notices.len() == chars.len()
    &&& forall|i: int|
        #![trigger chars[i]]
        0 <= i < chars.len() ==> typed(states[i], chars[i], states[i + 1], notices[i])
            && continues_word(states[i], chars[i])
}

/// Along a run of typing that goes on with the word, the undo stack stays
/// as it was and the last step stays typing.
proof fn lemma_typing_run_keeps_stack(states: Seq<App>, chars: Seq<char>, notices: Seq<Option<ChangeNotice>>, k: int)
    requires
        typing_run(states, chars, notices),
        states[0].last_action == ActionKind::Insert,
        0 <= k < states.len(),
    ensures
        states[k].undo_stack == states[0].undo_stack,
        states[k].last_action == ActionKind::Insert,
    decreases k,
{
    if k > 0 {
        lemma_typing_run_keeps_stack(states, chars, notices, k - 1);
        let c = chars[k - 1];
        assert(states[k - 1 + 1] == states[k]);
        assert(typed(states[k - 1], c, states[k], notices[k - 1]));
    }
}

/// Typing a word (a first character that starts an undo step, then
/// characters that go on with it) is taken back whole by one undo: the
/// text and the cursor from before the word come back.
pub proof fn law_undo_reverts_word(
    a: App,
    c: char,
    n: Option<ChangeNotice>,
    states: Seq<App>,
    chars: Seq<char>,
    notices: Seq<Option<ChangeNotice>>,
    u: App,
)
    requires
        a.last_action != ActionKind::Insert,
        states.len() >= 1,
        typed(a, c, states[0], n),
        typing_run(states, chars, notices),
        undone(states.last(), u),
    ensures
        u.document.lines@ == a.document.lines@,
        u.cursor == a.cursor,
{
    let b = states[0];
    assert(undo_pushed(a, b));
    lemma_typing_run_keeps_stack(states, chars, notices, states.len() - 1);
    let last = states.last();
    assert(last.undo_stack@ == b.undo_stack@);
    assert(last.undo_stack@.len() > 0);
    assert(is_snapshot(last.undo_stack@.last(), a));
}

/// Pressing a key that types `c`: the step ends as typing; one that
/// starts an undo step saves the text and cursor from before it on the undo
/// stack; one that goes on with the word keeps the undo stack.
proof fn lemma_typing_key(s: App, k: KeyEvent, t: App, e: Effect, c: char)
    requires
        exists|r: App, m: App| #[trigger] key_path(s, k, r, m, t, e),
        key_action(s, k) == KeyAction::Type(c),
    ensures
        t.last_action == ActionKind::Insert,
        s.last_action != ActionKind::Insert ==> t.undo_stack@.len() == s.undo_stack@.len() + 1 && t.undo_stack@.last().lines@
            == s.document.lines@ && t.undo_stack@.last().cursor_x == s.cursor.x && t.undo_stack@.last().cursor_y
            == s.cursor.y,
        continues_word(s, c) ==> t.undo_stack == s.undo_stack,
{
    let (r, m) = choose|r: App, m: App| #[trigger] key_path(s, k, r, m, t, e);
    assert(r.last_action == s.last_action && r.document == s.document && r.cursor == s.cursor);
    assert(r.undo_stack == s.undo_stack);
    assert(at_word_start(r, c) == at_word_start(s, c));
    assert(t.undo_stack == m.undo_stack && t.last_action == m.last_action);
}

/// Each key of `keys` goes from one state of `states` to the next.
pub open spec fn key_run(states: Seq<App>, keys: Seq<KeyEvent>, effects: Seq<Effect>) -> bool {
    &&& states.len() == keys.len() + 1
    &&& effects.len() == keys.len()
    &&& forall|i: int|
        #![trigger keys[i]]
        0 <= i < keys.len() ==> exists|r: App, m: App| #[trigger] key_path(states[i], keys[i], r, m, states[i + 1], effects[i])
}

/// Along key presses that type and go on with the word, the undo stack
/// stays as it was after the first.
proof fn lemma_word_keys(states: Seq<App>, keys: Seq<KeyEvent>, effects: Seq<Effect>, chars: Seq<char>, k: int)
    requires
        key_run(states, keys, effects),
        chars.len() == keys.len(),
        keys.len() >= 1,
        forall|i: int| 0 <= i < keys.len() ==> key_action(states[i], #[trigger] keys[i]) == KeyAction::Type(chars[i]),
        forall|i: int| 1 <= i < keys.len() ==> continues_word(states[i], #[trigger] chars[i]),
        1 <= k < states.len(),
    ensures
        states[k].undo_stack == states[1].undo_stack,
        states[k].last_action == ActionKind::Insert,
    decreases k,
{
    let i = k - 1;
    let key = keys[i];
    assert(states[i + 1] == states[k]);
    let c = chars[i];
    lemma_typing_key(states[i], key, states[k], effects[i], c);
    if k > 1 {
        lemma_word_keys(states, keys, effects, chars, k - 1);
    }
}

/// Typing a word key by key (the first key starting an undo step, the
/// others going on with the word), then pressing undo, gives back the text
/// and the cursor from before the word.
pub proof fn law_undo_keys_revert_word(
    states: Seq<App>,
    keys: Seq<KeyEvent>,
    effects: Seq<Effect>,
    chars: Seq<char>,
    z: KeyEvent,
    r: App,
    m: App,
    u: App,
    undo_effect: Effect,
)
    requires
        key_run(states, keys, effects),
        chars.len() == keys.len(),
        keys.len() >= 1,
        forall|i: int| 0 <= i < keys.len() ==> key_action(states[i], #[trigger] keys[i]) == KeyAction::Type(chars[i]),
        states[0].last_action != ActionKind::Insert,
        forall|i: int| 1 <= i < keys.len() ==> continues_word(states[i], #[trigger] chars[i]),
        key_action(states.last(), z) == KeyAction::Undo,
        key_path(states.last(), z, r, m, u, undo_effect),
    ensures
        u.document.lines@ == states[0].document.lines@,
        u.cursor == states[0].cursor,
{
    let k0 = keys[0];
    assert(states[0int + 1] == states[1int]);
    lemma_typing_key(states[0], k0, states[1], effects[0], chars[0]);
    lemma_word_keys(states, keys, effects, chars, states.len() - 1);
    let last = states.last();
    assert(last == states[states.len() - 1]);
    assert(r.undo_stack == last.undo_stack);
    assert(r.undo_stack@.len() > 0);
}

} // verus!
