//! How the screen is divided: title bar, body and status bar; in the body
//! the explorer when it is shown, the tab bar, and the editor with its
//! line numbers. ratatui's layout solver does the dividing. Also the texts
//! of the title and status bars.
use vstd::prelude::*;
use ratatui::layout::{Constraint, Direction, Layout};
use crate::app::{language_display_name, strings_view, App, EXPLORER_WIDTH};
use crate::lsp::client::{decimal, to_decimal};
use crate::text::path_extension_of;
use crate::ui::utils::Rect;

verus! {

/// The direction in which an area is divided.
#[derive(Debug, Clone, Copy, PartialEq, Eq, Structural)]
pub enum Axis {
    Horizontal,
    Vertical,
}

/// How much of an area one part asks for: exactly `n` cells, or at least
/// `n` cells.
#[derive(Debug, Clone, Copy, PartialEq, Eq, Structural)]
pub enum Extent {
    Length(u16),
    Min(u16),
}

/// Where ratatui's layout solver puts the parts `sizes` of `area` along
/// `axis`.
pub uninterp spec fn layout_split(area: Rect, axis: Axis, sizes: Seq<Extent>) -> Seq<Rect>;

/// Divides `area` along `axis` into one part for each of `sizes`
/// (`Layout::new(direction, constraints).split(area)`). Claimed: the result
/// is the solver's answer for these arguments, with one area for each
/// constraint, in order. Where each area lies is left to the solver and
/// not stated.
#[verifier::external_body]
fn split_area(area: Rect, axis: Axis, sizes: Vec<Extent>) -> (r: Vec<Rect>)
    ensures
        r@ == layout_split(area, axis, sizes@),
        r@.len() == sizes@.len(),
{
    let d = match axis { Axis::Horizontal => Direction::Horizontal, Axis::Vertical => Direction::Vertical };
    let cs = sizes.iter().map(|s| match *s { Extent::Length(n) => Constraint::Length(n), Extent::Min(n) => Constraint::Min(n) });
    let a = ratatui::layout::Rect { x: area.x, y: area.y, width: area.width, height: area.height };
    let parts = Layout::new(d, cs).split(a);
    parts.iter().map(|p| Rect { x: p.x, y: p.y, width: p.width, height: p.height }).collect()
}

/// The parts of the screen.
#[derive(Debug, Clone, Copy, PartialEq, Eq, Structural)]
pub struct ScreenLayout {
    pub top_bar: Rect,
    pub status_bar: Rect,
    pub explorer: Option<Rect>,
    pub tab_bar: Rect,
    pub editor: Rect,
    pub numbers: Rect,
    pub text: Rect,
}

/// The first `n` cells of an area along `axis` and the rest (at least one).
pub open spec fn head_and_rest(area: Rect, axis: Axis, n: u16) -> Seq<Rect> {
    layout_split(area, axis, seq![Extent::Length(n), Extent::Min(1)])
}

/// The parts of a screen of size `area` for `a`: a title row, the body and
/// a status row; the explorer takes its columns off the body when shown,
/// the tab bar the first row of the rest, and the line numbers
/// `a.number_col_width` columns of the editor.
pub open spec fn screen_layout_of(a: App, area: Rect) -> ScreenLayout {
    let outer = layout_split(area, Axis::Vertical, seq![Extent::Length(1), Extent::Min(1), Extent::Length(1)]);
    let body = outer[1];
    let explorer = if a.show_explorer { Some(head_and_rest(body, Axis::Horizontal, EXPLORER_WIDTH)[0]) } else { None };
    let column = if a.show_explorer { head_and_rest(body, Axis::Horizontal, EXPLORER_WIDTH)[1] } else { body };
    let editor = head_and_rest(column, Axis::Vertical, 1)[1];
    let inner = head_and_rest(editor, Axis::Horizontal, a.number_col_width);
    ScreenLayout {
        top_bar: outer[0],
        status_bar: outer[2],
        explorer,
        tab_bar: head_and_rest(column, Axis::Vertical, 1)[0],
        editor,
        numbers: inner[0],
        text: inner[1],
    }
}

/// Splits `area` into its first `n` cells along `axis` and the rest.
fn split_head(area: Rect, axis: Axis, n: u16) -> (r: (Rect, Rect))
    ensures
        r.0 == head_and_rest(area, axis, n)[0],
        r.1 == head_and_rest(area, axis, n)[1],
{
    let parts = split_area(area, axis, vec![Extent::Length(n), Extent::Min(1)]);
    proof {
        assert(parts@ == head_and_rest(area, axis, n));
    }
    (parts[0], parts[1])
}

/// The title bar's text for `a`.
pub open spec fn title_of(a: App) -> Seq<char> {
    "Ziro @ "@ + a.current_file@ + " "@
}

/// The status bar's text for `a`, with `lsp` the language server's state:
/// the status message, the cursor's line and column counted from one, the
/// language, the server's state, and whether the text is saved.
pub open spec fn status_line_of(a: App, lsp: Seq<char>) -> Seq<char> {
    let dirty = strings_view(a.document.lines@) != strings_view(a.last_saved@);
    " "@ + a.status_text@ + "  Ln "@ + decimal((a.cursor.y + 1) as nat) + ", Col "@ + decimal(
        (a.cursor.x + 1) as nat,
    ) + "  "@ + language_display_name(path_extension_of(a.current_file@)) + "  LSP: "@ + lsp + "  "@ + if dirty {
        "modified"@
    } else {
        "saved"@
    }
}

impl App {
    /// The title bar's text: the editor's name and the file's path.
    pub fn title_text(&self) -> (t: String)
        ensures
            t@ == title_of(*self),
    {
        let mut t = String::from_str("Ziro @ ");
        t.append(self.current_file.as_str());
        t.append(" ");
        t
    }

    /// The status bar's text, with `lsp` the language server's state.
    pub fn status_line(&self, lsp: &str) -> (t: String)
        requires
            self.cursor.x < usize::MAX,
            self.cursor.y < usize::MAX,
        ensures
            t@ == status_line_of(*self, lsp@),
    {
        let mut t = String::from_str(" ");
        t.append(self.status_text.as_str());
        t.append("  Ln ");
        let line = to_decimal(self.cursor.y + 1);
        t.append(line.as_str());
        t.append(", Col ");
        let column = to_decimal(self.cursor.x + 1);
        t.append(column.as_str());
        t.append("  ");
        t.append(self.language_name());
        t.append("  LSP: ");
        t.append(lsp);
        t.append("  ");
        if self.is_dirty() {
            t.append("modified");
        } else {
            t.append("saved");
        }
        t
    }

    /// The parts of a screen of size `area`.
    pub fn screen_layout(&self, area: Rect) -> (l: ScreenLayout)
        ensures
            l == screen_layout_of(*self, area),
    {
        let outer = split_area(area, Axis::Vertical, vec![Extent::Length(1), Extent::Min(1), Extent::Length(1)]);
        proof {
            assert(outer@ == layout_split(area, Axis::Vertical, seq![Extent::Length(1), Extent::Min(1), Extent::Length(1)]));
        }
        let body = outer[1];
        let (explorer, column) = if self.show_explorer {
            let (e, c) = split_head(body, Axis::Horizontal, EXPLORER_WIDTH);
            (Some(e), c)
        } else {
            (None, body)
        };
        let (tabs, editor) = split_head(column, Axis::Vertical, 1);
        let (numbers, text) = split_head(editor, Axis::Horizontal, self.number_col_width);
        ScreenLayout { top_bar: outer[0], status_bar: outer[2], explorer, tab_bar: tabs, editor, numbers, text }
    }
}

} // verus!
