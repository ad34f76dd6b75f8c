//! The mouse: hovering over the text, dragging tabs and explorer entries,
//! and the wheel.
use vstd::prelude::*;
use crate::app::{opt_index, App, Effect};
use crate::editor::explorer::entry_row;
use crate::management::input_management::{MouseEvent, MouseKind};
use crate::management::tab_management::{tab_hit, tab_hit_fits, tabs_width, TabItem};
use crate::text::{is_alphanumeric, is_word_char};
use crate::ui::utils::{utf16_len, utf16_units, Rect};

verus! {

/// What the language server is asked after the mouse rested on the text:
/// the hover information for a file, line and UTF-16 column.
#[derive(Debug)]
pub struct HoverRequest {
    pub path: String,
    pub line: usize,
    pub character: usize,
}

/// Whether the cell `(col, row)` lies inside `area`.
pub open spec fn in_rect(col: u16, row: u16, area: Rect) -> bool {
    area.x <= col < area.x + area.width && area.y <= row < area.y + area.height
}

/// Testing whether `(col, row)` lies in `area` stays within 16 bits.
pub open spec fn rect_test_fits(col: u16, row: u16, area: Rect) -> bool {
    &&& col >= area.x ==> area.x + area.width <= u16::MAX
    &&& col >= area.x && col < area.x + area.width && row >= area.y ==> area.y + area.height <= u16::MAX
}

/// Where the mouse rests in the text of `a`: the line and the character
/// (counted in characters) under the cell `(column, row)`, where the cell
/// is in the text area.
pub open spec fn hover_cell(a: App, column: u16, row: u16) -> Option<(int, int)> {
    let area = a.editor_area;
    let x = area.x + a.number_col_width;
    if row < area.y || row >= area.y + area.height || column < x {
        None
    } else {
        Some((a.scroll_y + (row - area.y), column - x))
    }
}

/// Finding the cell under the mouse stays within machine integers.
pub open spec fn hover_cell_fits(a: App, row: u16) -> bool {
    let area = a.editor_area;
    &&& area.x + a.number_col_width <= u16::MAX
    &&& row >= area.y ==> area.y + area.height <= u16::MAX && a.scroll_y + (row - area.y) <= usize::MAX
}

/// `b` and `effect` are `a` and what is left to do after the mouse came to
/// rest on `(column, row)`: over a word character of the text a hover
/// request for it starts to wait; over other text, or outside the text,
/// the hover goes; past the last line nothing changes.
pub open spec fn hover_requested(a: App, column: u16, row: u16, b: App, effect: Effect) -> bool {
    let dropped = App { hover_pending: None, hover: None, ..a };
    match hover_cell(a, column, row) {
        None => b == dropped && effect is Idle,
        Some((line, offset)) => if line >= a.document.lines@.len() {
            b == a && effect is Idle
        } else {
            let text = a.document.lines@[line]@;
            if offset >= text.len() || !is_word_char(text[offset]) {
                b == dropped && effect is Idle
            } else {
                &&& b == (App {
                    hover: None,
                    hover_pending: Some((line as usize, utf16_units(text.take(offset)) as usize, column, row)),
                    ..a
                })
                &&& effect is StartHoverTimer
            }
        },
    }
}

/// The mouse event can be handled in state `a`.
pub open spec fn mouse_ok(a: App, mouse: MouseEvent) -> bool {
    let (c, r) = (mouse.column, mouse.row);
    match mouse.kind {
        MouseKind::Moved => hover_cell_fits(a, r),
        MouseKind::LeftDown => {
            &&& rect_test_fits(c, r, a.tabs_area)
            &&& in_rect(c, r, a.tabs_area) ==> tab_hit_fits(a, c, r)
            &&& !in_rect(c, r, a.tabs_area) && a.show_explorer ==> rect_test_fits(c, r, a.explorer_area)
        },
        MouseKind::LeftDrag => a.dragging_tab is Some ==> tab_hit_fits(a, c, r),
        MouseKind::LeftUp => if a.dragging_tab is Some {
            let s = a.dragging_tab->0 as int;
            let len = a.tabs_list@.len();
            match a.tab_drag_target {
                Some(t) if t != s && t < len => s < len,
                _ => s < len ==> a.tabs_area.x + tabs_width(a.tabs_list@, s + 1) <= u16::MAX,
            }
        } else if a.dragging_entry is Some {
            let s = a.dragging_entry->0;
            match a.entry_drag_target {
                Some(t) if t != s => true,
                _ => App::can_open_selected(App { explorer_selected: s, ..a }),
            }
        } else {
            true
        },
        MouseKind::ScrollUp => {
            let y = if a.cursor.y >= 3 { a.cursor.y - 3 } else { 0 };
            App { cursor: crate::editor::cursor::Cursor { y: y as usize, ..a.cursor }, ..a }.scroll_fits(a.viewport_height)
        },
        MouseKind::ScrollDown => {
            &&& a.cursor.y + 3 <= usize::MAX
            &&& App { cursor: crate::editor::cursor::Cursor { y: scrolled_down_line(a) as usize, ..a.cursor }, ..a }.scroll_fits(
                a.viewport_height,
            )
        },
        MouseKind::Other => true,
    }
}

/// The cursor's line after the wheel turned down: three lines on, at most
/// the last line.
pub open spec fn scrolled_down_line(a: App) -> int {
    let last = if a.document@.len() > 0 { a.document@.len() - 1 } else { 0 };
    if a.cursor.y + 3 <= last { a.cursor.y + 3 } else { last }
}

/// `b` and `effect` are `a` and what is left to do after `mouse`.
pub open spec fn mouse_step(a: App, mouse: MouseEvent, b: App, effect: Effect) -> bool {
    let (c, r) = (mouse.column, mouse.row);
    match mouse.kind {
        MouseKind::Moved => hover_requested(a, c, r, b, effect),
        MouseKind::LeftDown => {
            &&& effect is Idle
            &&& if in_rect(c, r, a.tabs_area) {
                match tab_hit(a, c, r) {
                    Some(i) => b == (App { dragging_tab: Some(i as usize), tab_drag_target: Some(i as usize), ..a }),
                    None => b == a,
                }
            } else if a.show_explorer && in_rect(c, r, a.explorer_area) {
                match entry_row(a, r) {
                    Some(i) => b == (App {
                        explorer_selected: i as usize,
                        dragging_entry: Some(i as usize),
                        entry_drag_target: Some(i as usize),
                        ..a
                    }),
                    None => b == a,
                }
            } else {
                b == a
            }
        },
        MouseKind::LeftDrag => {
            &&& effect is Idle
            &&& if a.dragging_tab is Some {
                match tab_hit(a, c, r) {
                    Some(i) => b == (App { tab_drag_target: Some(i as usize), ..a }),
                    None => if r == a.tabs_area.y {
                        b == (App {
                            tab_drag_target: Some(
                                if a.tabs_list@.len() > 0 { (a.tabs_list@.len() - 1) as usize } else { 0usize },
                            ),
                            ..a
                        })
                    } else {
                        b == a
                    },
                }
            } else if a.dragging_entry is Some {
                match entry_row(a, r) {
                    Some(i) => b == (App { entry_drag_target: Some(i as usize), ..a }),
                    None => b == a,
                }
            } else {
                b == a
            }
        },
        MouseKind::LeftUp => if a.dragging_tab is Some {
            let s = a.dragging_tab->0 as int;
            let dropped = App { dragging_tab: None, tab_drag_target: None, ..a };
            match a.tab_drag_target {
                Some(t) if t != s && t < a.tabs_list@.len() => {
                    &&& effect is Idle
                    &&& b.tabs_list@ == crate::management::tab_management::moved_tab(a.tabs_list@, s, t as int)
                    &&& b == (App { tabs_list: b.tabs_list, ..dropped })
                },
                _ => App::clicked_tab(dropped, s, c, b, tab_of(effect)) && (effect is Show || effect is Idle),
            }
        } else if a.dragging_entry is Some {
            let s = a.dragging_entry->0;
            let dropped = App { dragging_entry: None, entry_drag_target: None, ..a };
            match a.entry_drag_target {
                Some(t) if t != s => App::move_planned(dropped, s as int, t as int, b, effect),
                _ => App::opened_selected(App { explorer_selected: s, ..dropped }, b, effect),
            }
        } else {
            b == a && effect is Idle
        },
        MouseKind::ScrollUp => {
            let y = if a.cursor.y >= 3 { a.cursor.y - 3 } else { 0 };
            &&& effect is Idle
            &&& b == App { cursor: crate::editor::cursor::Cursor { y: y as usize, ..a.cursor }, ..a }.scrolled(a.viewport_height)
        },
        MouseKind::ScrollDown => {
            &&& effect is Idle
            &&& b == App {
                cursor: crate::editor::cursor::Cursor { y: scrolled_down_line(a) as usize, ..a.cursor },
                ..a
            }.scrolled(a.viewport_height)
        },
        MouseKind::Other => b == a && effect is Idle,
    }
}

/// The tab an effect asks to show.
pub open spec fn tab_of(effect: Effect) -> Option<TabItem> {
    match effect {
        Effect::Show(t) => Some(t),
        _ => None,
    }
}

/// `b` is `a` once a waiting hover request is `ripe` (has waited long
/// enough): the request goes out for its position, and the popup will
/// stand at the mouse's cell.
pub open spec fn hover_polled(a: App, ripe: bool, b: App, req: Option<HoverRequest>) -> bool {
    match a.hover_pending {
        Some((line, character, x, y)) if ripe => {
            &&& b == (App {
                hover_pending: None,
                hover_position: Some((line, character)),
                hover_anchor: Some((x, y)),
                ..a
            })
            &&& req matches Some(q) && q.path@ == a.current_file@ && q.line == line && q.character == character
        },
        _ => b == a && req is None,
    }
}

impl App {
    /// Whether the cell `(col, row)` lies inside `area`.
    pub fn point_in_rect(col: u16, row: u16, area: Rect) -> (inside: bool)
        requires
            rect_test_fits(col, row, area),
        ensures
            inside == in_rect(col, row, area),
    {
        col >= area.x && col < area.x + area.width && row >= area.y && row < area.y + area.height
    }

    /// The mouse came to rest on `(column, row)`: over a word character of
    /// the text a hover request for it starts to wait.
    pub fn request_hover_at(&mut self, column: u16, row: u16) -> (effect: Effect)
        requires
            hover_cell_fits(*old(self), row),
        ensures
            hover_requested(*old(self), column, row, *final(self), effect),
    {
        let area = self.editor_area;
        let x = area.x + self.number_col_width;
        if row < area.y || row >= area.y + area.height || column < x {
            self.hover_pending = None;
            self.hover = None;
            return Effect::Idle;
        }
        let line = self.scroll_y + (row - area.y) as usize;
        if line >= self.document.lines.len() {
            return Effect::Idle;
        }
        let offset = (column - x) as usize;
        let text = self.document.lines[line].as_str();
        if offset >= text.unicode_len() {
            self.hover_pending = None;
            self.hover = None;
            return Effect::Idle;
        }
        let ch = text.get_char(offset);
        if !is_alphanumeric(ch) && ch != '_' {
            self.hover_pending = None;
            self.hover = None;
            return Effect::Idle;
        }
        let before = text.substring_char(0, offset);
        proof {
            assert(before@ =~= text@.take(offset as int));
        }
        let position = utf16_len(before);
        self.hover = None;
        self.hover_pending = Some((line, position, column, row));
        Effect::StartHoverTimer
    }

    /// Sends a waiting hover request once it is `ripe`.
    pub fn poll_hover(&mut self, ripe: bool) -> (req: Option<HoverRequest>)
        ensures
            hover_polled(*old(self), ripe, *final(self), req),
    {
        match self.hover_pending {
            Some((line, character, x, y)) => {
                if !ripe {
                    return None;
                }
                self.hover_pending = None;
                self.hover_position = Some((line, character));
                self.hover_anchor = Some((x, y));
                Some(HoverRequest { path: self.current_file.clone(), line, character })
            },
            None => None,
        }
    }

    /// Handles a mouse event. Returns the outside work left to do.
    #[verifier::rlimit(60)]
    pub fn handle_mouse(&mut self, mouse: MouseEvent) -> (effect: Effect)
        requires
            mouse_ok(*old(self), mouse),
        ensures
            mouse_step(*old(self), mouse, *final(self), effect),
    {
        match mouse.kind {
            MouseKind::Moved => self.request_hover_at(mouse.column, mouse.row),
            MouseKind::LeftDown => {
                if App::point_in_rect(mouse.column, mouse.row, self.tabs_area) {
                    self.start_tab_drag(mouse);
                } else if self.show_explorer && App::point_in_rect(mouse.column, mouse.row, self.explorer_area) {
                    self.start_entry_drag(mouse);
                }
                Effect::Idle
            },
            MouseKind::LeftDrag => {
                if self.dragging_tab.is_some() {
                    self.update_tab_drag(mouse);
                } else if self.dragging_entry.is_some() {
                    self.update_entry_drag(mouse);
                }
                Effect::Idle
            },
            MouseKind::LeftUp => {
                if self.dragging_tab.is_some() {
                    match self.finish_tab_drag(mouse) {
                        Some(tab) => Effect::Show(tab),
                        None => Effect::Idle,
                    }
                } else if self.dragging_entry.is_some() {
                    self.finish_entry_drag(mouse)
                } else {
                    Effect::Idle
                }
            },
            MouseKind::ScrollUp => {
                self.cursor.y = self.cursor.y.saturating_sub(3);
                let height = self.viewport_height;
                self.update_scroll(height);
                Effect::Idle
            },
            MouseKind::ScrollDown => {
                let count = self.document.lines.len();
                let max_y = count.saturating_sub(1);
                let down = self.cursor.y + 3;
                self.cursor.y = if down <= max_y {
                    down
                } else {
                    max_y
                };
                let height = self.viewport_height;
                self.update_scroll(height);
                Effect::Idle
            },
            MouseKind::Other => Effect::Idle,
        }
    }
}

/// A hover request waits exactly when the mouse rests in the text area over
/// a word character of the text; it is for the line under the mouse (the
/// first line in view plus the row's offset into the area), at the UTF-16
/// position of the character under the mouse (the column's offset past the
/// line numbers), and remembers where the mouse is.
pub proof fn law_hover_request_is_for_cell_under_mouse(a: App, column: u16, row: u16, b: App, effect: Effect)
    requires
        hover_requested(a, column, row, b, effect),
    ensures
        effect is StartHoverTimer <==> ({
            let area = a.editor_area;
            let line = a.scroll_y + (row - area.y);
            let offset = column - (area.x + a.number_col_width);
            &&& area.y <= row < area.y + area.height
            &&& column >= area.x + a.number_col_width
            &&& line < a.document.lines@.len()
            &&& offset < a.document.lines@[line]@.len()
            &&& is_word_char(a.document.lines@[line]@[offset])
        }),
        effect is StartHoverTimer ==> ({
            let area = a.editor_area;
            let line = a.scroll_y + (row - area.y);
            let offset = column - (area.x + a.number_col_width);
            &&& b.hover_pending matches Some((l, ch, c, r)) && l == line as usize && c == column && r == row
                && ch == utf16_units(a.document.lines@[line]@.take(offset)) as usize
            &&& b.hover is None
            &&& b.document == a.document && b.cursor == a.cursor
        }),
{
}

} // verus!
