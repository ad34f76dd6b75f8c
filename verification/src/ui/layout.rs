//! Where the screen's parts go: the tab bar's cells, the explorer's rows,
//! the selected stretch of each line, and the terminal cursor.
use vstd::prelude::*;
use crate::app::App;
use crate::editor::explorer::{icon_of, FileEntry};
use crate::management::selection_management::position_le;
use crate::management::tab_management::{tab_at_from, TabItem};
use crate::text::{byte_len, bytes_of, path_extension_of, str_eq};
use crate::ui::utils::{centered_rect, min_int, sat_sub, Rect};
use crate::ui::colors::Color;
use crate::lsp::client::{decimal, to_decimal};

verus! {

/// How a tab is drawn.
#[derive(Debug, Clone, Copy, PartialEq, Eq, Structural)]
pub enum TabLook {
    DragTarget,
    Active,
    Inactive,
}

/// A tab's place in the tab bar, how it is drawn, and whether it holds
/// the file on screen (whose tab is marked over any other look).
#[derive(Debug, Clone, Copy, PartialEq, Eq, Structural)]
pub struct TabCell {
    pub x: u16,
    pub width: u16,
    pub look: TabLook,
    pub active: bool,
}

/// How an explorer row is drawn.
#[derive(Debug, Clone, Copy, PartialEq, Eq, Structural)]
pub enum RowLook {
    DragTarget,
    Selected,
    Dir,
    File,
}

/// The cells the label `" name x "` of a tab takes, cut to 16 bits.
pub open spec fn label_width(t: TabItem) -> int {
    (bytes_of(t.name@).len() as int + 4) % 65536
}

/// How the `i`-th tab of `a` is drawn: as the drop target of a drag, as
/// the file on screen, or plainly.
pub open spec fn tab_look(a: App, i: int) -> TabLook {
    if a.dragging_tab is Some && a.tab_drag_target == Some(i as usize) {
        TabLook::DragTarget
    } else if a.tabs_list@[i].path@ == a.current_file@ {
        TabLook::Active
    } else {
        TabLook::Inactive
    }
}

/// The cells of the tabs of `a` from the `i`-th on, laid out from column
/// `x`, up to the first that does not fit before column `right`.
pub open spec fn cells_from(a: App, i: int, x: int, right: int) -> Seq<TabCell>
    decreases a.tabs_list@.len() - i,
{
    if i < 0 || i >= a.tabs_list@.len() {
        seq![]
    } else {
        let w = label_width(a.tabs_list@[i]);
        if x + w > right {
            seq![]
        } else {
            seq![
                TabCell {
                    x: x as u16,
                    width: w as u16,
                    look: tab_look(a, i),
                    active: a.tabs_list@[i].path@ == a.current_file@,
                },
            ] + cells_from(a, i + 1, x + w, right)
        }
    }
}

/// The column where the laid-out tabs end.
pub open spec fn cells_end(a: App, i: int, x: int, right: int) -> int
    decreases a.tabs_list@.len() - i,
{
    if i < 0 || i >= a.tabs_list@.len() {
        x
    } else {
        let w = label_width(a.tabs_list@[i]);
        if x + w > right {
            x
        } else {
            cells_end(a, i + 1, x + w, right)
        }
    }
}

/// Laying out the tabs stays within 16 bits.
pub open spec fn cells_fit(a: App, i: int, x: int, right: int) -> bool
    decreases a.tabs_list@.len() - i,
{
    if i < 0 || i >= a.tabs_list@.len() {
        true
    } else {
        let w = label_width(a.tabs_list@[i]);
        x + w <= u16::MAX && (x + w > right || cells_fit(a, i + 1, x + w, right))
    }
}

/// The indentation of an explorer row at `depth`: two spaces a level.
pub open spec fn indent(depth: int) -> Seq<char> {
    Seq::new((2 * depth) as nat, |k: int| ' ')
}

/// The marker of an explorer row: open or closed for a directory.
pub open spec fn marker(e: FileEntry) -> Seq<char> {
    if e.is_dir {
        if e.expanded {
            "v "@
        } else {
            "> "@
        }
    } else {
        "  "@
    }
}

/// The label of an explorer row.
pub open spec fn row_label(e: FileEntry) -> Seq<char> {
    indent(e.depth as int) + marker(e) + icon_of(path_extension_of(e.path@), e.is_dir) + " "@ + e.name@
}

/// How the `i`-th explorer row of `a` is drawn.
pub open spec fn row_look(a: App, i: int) -> RowLook {
    if a.dragging_entry is Some && a.entry_drag_target == Some(i as usize) {
        RowLook::DragTarget
    } else if i == a.explorer_selected {
        RowLook::Selected
    } else if a.explorer_entries@[i].is_dir {
        RowLook::Dir
    } else {
        RowLook::File
    }
}

/// The columns (in characters) of line `line_no` that the selection of `a`
/// covers, from its start to its end.
pub open spec fn selection_span_of(a: App, line_no: int) -> Option<(int, int)> {
    match a.selection {
        None => None,
        Some(sel) => {
            let cursor = (a.cursor.x, a.cursor.y);
            let (start, end) = if position_le(sel.anchor, cursor) {
                (sel.anchor, cursor)
            } else {
                (cursor, sel.anchor)
            };
            if start.1 <= line_no <= end.1 {
                Some(
                    (
                        if line_no == start.1 { start.0 as int } else { 0 },
                        if line_no == end.1 { end.0 as int } else { a.document.lines@[line_no]@.len() as int },
                    ),
                )
            } else {
                None
            }
        },
    }
}

/// The text and style of each span.
pub open spec fn span_views<S>(spans: Seq<(String, S)>) -> Seq<(Seq<char>, S)> {
    Seq::new(spans.len(), |i: int| (spans[i].0@, spans[i].1))
}

/// The text, style and selectedness of each piece.
pub open spec fn piece_views<S>(pieces: Seq<(String, S, bool)>) -> Seq<(Seq<char>, S, bool)> {
    Seq::new(pieces.len(), |i: int| (pieces[i].0@, pieces[i].1, pieces[i].2))
}

/// `(text, style, selected)`, dropped when the text is empty.
pub open spec fn piece<S>(text: Seq<char>, style: S, selected: bool) -> Seq<(Seq<char>, S, bool)> {
    if text.len() > 0 {
        seq![(text, style, selected)]
    } else {
        seq![]
    }
}

/// The pieces of a span with `text` starting at column `start`: the whole
/// span where it misses the selection, else the part before it, the part
/// in it (selected) and the part after it, leaving out empty parts.
pub open spec fn span_pieces<S>(text: Seq<char>, style: S, start: int, sel_start: int, sel_end: int) -> Seq<(Seq<char>, S, bool)> {
    let len = text.len() as int;
    if start + len <= sel_start || start >= sel_end {
        seq![(text, style, false)]
    } else {
        let ls = min_int(sat_sub(sel_start, start), len);
        let le = min_int(sat_sub(sel_end, start), len);
        piece(text.subrange(0, ls), style, false) + piece(text.subrange(ls, le), style, true) + piece(
            text.subrange(le, len),
            style,
            false,
        )
    }
}

/// The pieces of `spans`, the first starting at column `col`.
pub open spec fn pieces_from<S>(spans: Seq<(Seq<char>, S)>, col: int, sel_start: int, sel_end: int) -> Seq<(Seq<char>, S, bool)>
    decreases spans.len(),
{
    if spans.len() == 0 {
        seq![]
    } else {
        span_pieces(spans[0].0, spans[0].1, col, sel_start, sel_end) + pieces_from(
            spans.drop_first(),
            col + spans[0].0.len(),
            sel_start,
            sel_end,
        )
    }
}

/// The spans of a line with the columns `sel_start..sel_end` marked
/// selected; with nothing selected, the spans as they are.
pub open spec fn highlighted<S>(spans: Seq<(Seq<char>, S)>, sel_start: int, sel_end: int) -> Seq<(Seq<char>, S, bool)> {
    if sel_start >= sel_end {
        Seq::new(spans.len(), |i: int| (spans[i].0, spans[i].1, false))
    } else {
        pieces_from(spans, 0, sel_start, sel_end)
    }
}

/// The number of characters in the spans.
pub open spec fn chars_in<S>(spans: Seq<(Seq<char>, S)>) -> int
    decreases spans.len(),
{
    if spans.len() == 0 {
        0
    } else {
        spans[0].0.len() + chars_in(spans.drop_first())
    }
}

/// Where the terminal cursor goes on a screen of size `area`: in the
/// file-name prompt after the name typed so far, else at the text cursor,
/// kept off the last column and the status bar.
pub open spec fn screen_cursor_of(a: App, area: Rect) -> (int, int) {
    if a.filename_prompt {
        let px = sat_sub(area.width as int, 40) / 2;
        let py = sat_sub(area.height as int, 5) / 2;
        (px + 1 + (bytes_of(a.filename_input@).len() as int % 65536), py + 2)
    } else {
        let x = a.editor_area.x + a.number_col_width + (a.cursor.x as int % 65536);
        let y = a.editor_area.y + ((a.cursor.y - a.scroll_y) % 65536);
        (min_int(x, sat_sub(area.width as int, 1)), min_int(y, sat_sub(area.height as int, 2)))
    }
}

/// Placing the terminal cursor is defined and stays within 16 bits.
pub open spec fn screen_cursor_fits(a: App, area: Rect) -> bool {
    if a.filename_prompt {
        sat_sub(area.width as int, 40) / 2 + 1 + (bytes_of(a.filename_input@).len() as int % 65536) <= u16::MAX
    } else {
        &&& a.cursor.y >= a.scroll_y
        &&& a.editor_area.x + a.number_col_width + (a.cursor.x as int % 65536) <= u16::MAX
        &&& a.editor_area.y + ((a.cursor.y - a.scroll_y) % 65536) <= u16::MAX
    }
}

impl App {
    /// The cells of the tab bar in `area`: as many tabs as fit, from the
    /// left, and the column where they end.
    pub fn tab_cells(&self, area: Rect) -> (r: (Vec<TabCell>, u16))
        requires
            area.x + area.width <= u16::MAX,
            cells_fit(*self, 0, area.x as int, area.x + area.width),
        ensures
            r.0@ == cells_from(*self, 0, area.x as int, area.x + area.width),
            r.1 == cells_end(*self, 0, area.x as int, area.x + area.width),
    {
        let right = area.x + area.width;
        let n = self.tabs_list.len();
        let mut cells: Vec<TabCell> = Vec::new();
        let mut x: u16 = area.x;
        let mut i: usize = 0;
        while i < n
            invariant
                n == self.tabs_list@.len(),
                i <= n,
                right == area.x + area.width,
                cells_fit(*self, i as int, x as int, right as int),
                cells@ + cells_from(*self, i as int, x as int, right as int) == cells_from(
                    *self,
                    0,
                    area.x as int,
                    right as int,
                ),
                cells_end(*self, i as int, x as int, right as int) == cells_end(*self, 0, area.x as int, right as int),
            ensures
                cells@ == cells_from(*self, 0, area.x as int, right as int),
                x == cells_end(*self, 0, area.x as int, right as int),
            decreases n - i,
        {
            let len = byte_len(self.tabs_list[i].name.as_str());
            proof {
                crate::management::tab_management::lemma_u16_cut(len);
                assert(((len as int + 4) % 65536) == if len as int % 65536 + 4 < 65536 {
                    len as int % 65536 + 4
                } else {
                    len as int % 65536 + 4 - 65536
                });
            }
            let width: u16 = (len as u16).wrapping_add(4);
            if x + width > right {
                proof {
                    assert(width as int == label_width(self.tabs_list@[i as int]));
                    assert(cells_from(*self, i as int, x as int, right as int) =~= Seq::<TabCell>::empty());
                    assert(cells@ =~= cells@ + Seq::<TabCell>::empty());
                }
                break;
            }
            let active = str_eq(self.tabs_list[i].path.as_str(), self.current_file.as_str());
            let look = if self.dragging_tab.is_some() && self.tab_drag_target == Some(i) {
                TabLook::DragTarget
            } else if active {
                TabLook::Active
            } else {
                TabLook::Inactive
            };
            let ghost prev = cells@;
            cells.push(TabCell { x, width, look, active });
            proof {
                assert(cells@ + cells_from(*self, i + 1, x + width, right as int) =~= prev + cells_from(
                    *self,
                    i as int,
                    x as int,
                    right as int,
                ));
            }
            x = x + width;
            i += 1;
        }
        (cells, x)
    }

    /// The label of the `i`-th explorer row and how it is drawn.
    pub fn explorer_row(&self, i: usize) -> (r: (String, RowLook))
        requires
            i < self.explorer_entries@.len(),
            2 * self.explorer_entries@[i as int].depth <= usize::MAX,
        ensures
            r.0@ == row_label(self.explorer_entries@[i as int]),
            r.1 == row_look(*self, i as int),
    {
        let e = &self.explorer_entries[i];
        let mut label = String::new();
        let mut k: usize = 0;
        while k < e.depth
            invariant
                k <= e.depth,
                label@ == indent(k as int),
            decreases e.depth - k,
        {
            label.append("  ");
            proof {
                reveal_strlit("  ");
                assert(label@ =~= indent(k + 1));
            }
            k += 1;
        }
        proof {
            reveal_strlit("v ");
            reveal_strlit("> ");
            reveal_strlit("  ");
            reveal_strlit(" ");
        }
        let mark = if e.is_dir {
            if e.expanded {
                "v "
            } else {
                "> "
            }
        } else {
            "  "
        };
        label.append(mark);
        label.append(App::icon_for(e.path.as_str(), e.is_dir));
        label.append(" ");
        label.append(e.name.as_str());
        let look = if self.dragging_entry.is_some() && self.entry_drag_target == Some(i) {
            RowLook::DragTarget
        } else if i == self.explorer_selected {
            RowLook::Selected
        } else if e.is_dir {
            RowLook::Dir
        } else {
            RowLook::File
        };
        (label, look)
    }

    /// The columns of line `line_no` that the selection covers.
    pub fn selection_span(&self, line_no: usize) -> (r: Option<(usize, usize)>)
        requires
            selection_span_of(*self, line_no as int) is Some ==> ({
                let sel = self.selection->0;
                let cursor = (self.cursor.x, self.cursor.y);
                let end = if position_le(sel.anchor, cursor) { cursor } else { sel.anchor };
                line_no != end.1 ==> line_no < self.document.lines@.len()
            }),
        ensures
            match r {
                Some((s, e)) => selection_span_of(*self, line_no as int) == Some((s as int, e as int)),
                None => selection_span_of(*self, line_no as int) is None,
            },
    {
        match self.selection {
            None => None,
            Some(sel) => {
                let (start, end) = sel.range((self.cursor.x, self.cursor.y));
                if start.1 <= line_no && line_no <= end.1 {
                    let s = if line_no == start.1 {
                        start.0
                    } else {
                        0
                    };
                    let e = if line_no == end.1 {
                        end.0
                    } else {
                        self.document.lines[line_no].as_str().unicode_len()
                    };
                    Some((s, e))
                } else {
                    None
                }
            },
        }
    }

    /// Where the terminal cursor goes on a screen of size `area`.
    pub fn screen_cursor(&self, area: Rect) -> (p: (u16, u16))
        requires
            screen_cursor_fits(*self, area),
        ensures
            p.0 == screen_cursor_of(*self, area).0,
            p.1 == screen_cursor_of(*self, area).1,
    {
        if self.filename_prompt {
            let px = area.width.saturating_sub(40) / 2;
            let py = area.height.saturating_sub(5) / 2;
            let typed = byte_len(self.filename_input.as_str());
            proof {
                crate::management::tab_management::lemma_u16_cut(typed);
            }
            (px + 1 + typed as u16, py + 2)
        } else {
            let ea = self.editor_area;
            proof {
                crate::management::tab_management::lemma_u16_cut(self.cursor.x);
                crate::management::tab_management::lemma_u16_cut((self.cursor.y - self.scroll_y) as usize);
            }
            let x = ea.x + self.number_col_width + self.cursor.x as u16;
            let y = ea.y + (self.cursor.y - self.scroll_y) as u16;
            let max_x = area.width.saturating_sub(1);
            let max_y = area.height.saturating_sub(2);
            (
                if x <= max_x {
                    x
                } else {
                    max_x
                },
                if y <= max_y {
                    y
                } else {
                    max_y
                },
            )
        }
    }
}

impl App {
    /// The spans of a line with the columns `sel_start..sel_end` marked
    /// selected: a span that meets the selection splits into the part before
    /// it, the part in it and the part after it.
    pub fn apply_selection_highlight<S: Copy>(spans: Vec<(String, S)>, sel_start: usize, sel_end: usize) -> (out: Vec<(String, S, bool)>)
        requires
            chars_in(span_views(spans@)) <= usize::MAX,
        ensures
            piece_views(out@) == highlighted(span_views(spans@), sel_start as int, sel_end as int),
    {
        let ghost all = span_views(spans@);
        let n = spans.len();
        let mut out: Vec<(String, S, bool)> = Vec::new();
        if sel_start >= sel_end {
            let mut i: usize = 0;
            while i < n
                invariant
                    n == spans@.len(),
                    all == span_views(spans@),
                    i <= n,
                    piece_views(out@) == highlighted(all, sel_start as int, sel_end as int).take(i as int),
                    sel_start >= sel_end,
                decreases n - i,
            {
                let ghost prev = out@;
                out.push((spans[i].0.clone(), spans[i].1, false));
                proof {
                    assert(piece_views(out@) =~= piece_views(prev).push((all[i as int].0, all[i as int].1, false)));
                    assert(highlighted(all, sel_start as int, sel_end as int).take(i + 1) =~= highlighted(
                        all,
                        sel_start as int,
                        sel_end as int,
                    ).take(i as int).push((all[i as int].0, all[i as int].1, false)));
                }
                i += 1;
            }
            proof {
                assert(highlighted(all, sel_start as int, sel_end as int).take(n as int) =~= highlighted(
                    all,
                    sel_start as int,
                    sel_end as int,
                ));
            }
            return out;
        }
        let mut col: usize = 0;
        let mut i: usize = 0;
        proof {
            assert(all.skip(0) =~= all);
            assert(piece_views(out@) =~= Seq::<(Seq<char>, S, bool)>::empty());
            assert(piece_views(out@) + pieces_from(all, 0, sel_start as int, sel_end as int) =~= pieces_from(
                all,
                0,
                sel_start as int,
                sel_end as int,
            ));
        }
        while i < n
            invariant
                n == spans@.len(),
                all == span_views(spans@),
                i <= n,
                sel_start < sel_end,
                col as int + chars_in(all.skip(i as int)) == chars_in(all),
                chars_in(all) <= usize::MAX,
                piece_views(out@) + pieces_from(all.skip(i as int), col as int, sel_start as int, sel_end as int)
                    == pieces_from(all, 0, sel_start as int, sel_end as int),
            decreases n - i,
        {
            let text = spans[i].0.as_str();
            let style = spans[i].1;
            let len = text.unicode_len();
            proof {
                assert(all.skip(i as int)[0] == all[i as int]);
                assert(all.skip(i as int).drop_first() =~= all.skip(i + 1));
                lemma_chars_in_nonneg(all.skip(i + 1));
            }
            let start = col;
            let end = col + len;
            col = end;
            let ghost prev = out@;
            let ghost expect = span_pieces(text@, style, start as int, sel_start as int, sel_end as int);
            if end <= sel_start || start >= sel_end {
                out.push((text.to_string(), style, false));
                proof {
                    assert(piece_views(out@) =~= piece_views(prev) + expect);
                }
            } else {
                let a = if sel_start >= start { sel_start - start } else { 0 };
                let ls = if a <= len { a } else { len };
                let b = if sel_end >= start { sel_end - start } else { 0 };
                let le = if b <= len { b } else { len };
                if ls > 0 {
                    out.push((text.substring_char(0, ls).to_string(), style, false));
                }
                let ghost p1 = out@;
                if le > ls {
                    out.push((text.substring_char(ls, le).to_string(), style, true));
                }
                let ghost p2 = out@;
                if len > le {
                    out.push((text.substring_char(le, len).to_string(), style, false));
                }
                proof {
                    assert(piece_views(p1) =~= piece_views(prev) + piece(text@.subrange(0, ls as int), style, false));
                    assert(piece_views(p2) =~= piece_views(p1) + piece(text@.subrange(ls as int, le as int), style, true));
                    assert(piece_views(out@) =~= piece_views(p2) + piece(
                        text@.subrange(le as int, len as int),
                        style,
                        false,
                    ));
                    assert(piece_views(out@) =~= piece_views(prev) + expect);
                }
            }
            proof {
                assert(pieces_from(all.skip(i as int), start as int, sel_start as int, sel_end as int) == expect
                    + pieces_from(all.skip(i + 1), end as int, sel_start as int, sel_end as int));
                assert(piece_views(out@) + pieces_from(all.skip(i + 1), col as int, sel_start as int, sel_end as int)
                    =~= piece_views(prev) + pieces_from(all.skip(i as int), start as int, sel_start as int, sel_end as int));
            }
            i += 1;
        }
        proof {
            assert(all.skip(n as int) =~= Seq::<(Seq<char>, S)>::empty());
            assert(piece_views(out@) =~= piece_views(out@) + Seq::<(Seq<char>, S, bool)>::empty());
        }
        out
    }
}

/// Where the name typed at the file-name prompt goes on a screen of size
/// `area`: inside the centred 40 by 5 popup, on its third row.
pub fn prompt_input_rect(area: Rect) -> (r: Rect)
    requires
        min_int(40, area.width as int) >= 2,
    ensures
        r.x == sat_sub(area.width as int, 40) / 2 + 1,
        r.y == sat_sub(area.height as int, 5) / 2 + 2,
        r.width == min_int(40, area.width as int) - 2,
        r.height == 1,
{
    let popup = centered_rect(40, 5, area);
    Rect { x: popup.x + 1, y: popup.y + 2, width: popup.width - 2, height: 1 }
}

/// The spans hold no fewer than no characters.
proof fn lemma_chars_in_nonneg<S>(spans: Seq<(Seq<char>, S)>)
    ensures
        chars_in(spans) >= 0,
    decreases spans.len(),
{
    if spans.len() > 0 {
        lemma_chars_in_nonneg(spans.drop_first());
    }
}

/// The text of a tab: its name between a space and `" x "`.
pub fn tab_label(name: &str) -> (l: String)
    ensures
        l@ == " "@ + name@ + " x "@,
{
    let mut l = String::from_str(" ");
    l.append(name);
    l.append(" x ");
    l
}

/// `k` spaces.
pub open spec fn spaces(k: nat) -> Seq<char> {
    Seq::new(k, |i: int| ' ')
}

/// The label of line number `n` in the gutter: `n` right-aligned in four
/// columns, then a space.
pub open spec fn line_number_label_of(n: nat) -> Seq<char> {
    let d = decimal(n);
    let pad = if d.len() < 4 { (4 - d.len()) as nat } else { 0 };
    spaces(pad) + d + " "@
}

/// The gutter label of line number `n`.
pub fn line_number_label(n: usize) -> (l: String)
    ensures
        l@ == line_number_label_of(n as nat),
{
    let digits = to_decimal(n);
    let d = digits.as_str().unicode_len();
    let mut l = String::new();
    let pad: usize = if d < 4 { 4 - d } else { 0 };
    let mut i: usize = 0;
    while i < pad
        invariant
            i <= pad,
            l@ == spaces(i as nat),
        decreases pad - i,
    {
        l.append(" ");
        proof {
            reveal_strlit(" ");
            assert(l@ =~= spaces((i + 1) as nat));
        }
        i += 1;
    }
    l.append(digits.as_str());
    l.append(" ");
    l
}

impl App {
    /// The colour of the gutter label of line `line` (counted from zero):
    /// the active colour on the cursor's line.
    pub fn line_number_color(&self, line: usize) -> (c: Color)
        ensures
            c == if line == self.cursor.y { self.theme.fg_line_number_active } else { self.theme.fg_line_number },
    {
        if line == self.cursor.y {
            self.theme.fg_line_number_active
        } else {
            self.theme.fg_line_number
        }
    }
}

/// The inside of the explorer panel drawn in `area`: two columns in from
/// the left border, one row down, and three columns and two rows smaller
/// (none where the panel is smaller than that).
pub open spec fn explorer_inner_of(area: Rect) -> Rect {
    Rect {
        x: (area.x + 2) as u16,
        y: (area.y + 1) as u16,
        width: sat_sub(area.width as int, 3) as u16,
        height: sat_sub(area.height as int, 2) as u16,
    }
}

/// The inside of the explorer panel drawn in `area`.
pub fn explorer_inner(area: Rect) -> (r: Rect)
    requires
        area.x + 2 <= u16::MAX,
        area.y + 1 <= u16::MAX,
    ensures
        r == explorer_inner_of(area),
{
    Rect {
        x: area.x + 2,
        y: area.y + 1,
        width: area.width.saturating_sub(3),
        height: area.height.saturating_sub(2),
    }
}

/// The lines drawn in a text area of `height` rows from the first line in
/// view, `scroll`, of `count` lines: as many as fit and exist.
pub open spec fn drawn_lines(scroll: int, height: int, count: int) -> int {
    min_int(height, sat_sub(count, scroll))
}

impl App {
    /// Places the explorer panel in `area`: its inside is where the rows go
    /// and where clicks are read.
    pub fn place_explorer(&mut self, area: Rect) -> (inner: Rect)
        requires
            area.x + 2 <= u16::MAX,
            area.y + 1 <= u16::MAX,
        ensures
            inner == explorer_inner_of(area),
            *final(self) == (App { explorer_area: inner, ..*old(self) }),
    {
        let inner = explorer_inner(area);
        self.explorer_area = inner;
        inner
    }

    /// Places the text in `area`, for a text of `line_count` lines: the view
    /// is as high as the area, and the result is the first line drawn and
    /// how many are drawn.
    pub fn place_editor(&mut self, area: Rect, line_count: usize) -> (r: (usize, usize))
        ensures
            r.0 == old(self).scroll_y,
            r.1 == drawn_lines(old(self).scroll_y as int, area.height as int, line_count as int),
            *final(self) == (App { editor_area: area, viewport_height: area.height as usize, ..*old(self) }),
    {
        self.editor_area = area;
        self.viewport_height = area.height as usize;
        let rest = line_count.saturating_sub(self.scroll_y);
        let h = area.height as usize;
        let count = if h < rest { h } else { rest };
        (self.scroll_y, count)
    }

    /// The gutter of `count` lines from line `first` (counted from zero):
    /// each line's number counted from one, right-aligned, and its colour.
    pub fn gutter_rows(&self, first: usize, count: usize) -> (rows: Vec<(String, Color)>)
        requires
            first + count < usize::MAX,
        ensures
            rows@.len() == count,
            forall|k: int|
                0 <= k < count ==> (#[trigger] rows@[k]).0@ == line_number_label_of((first + k + 1) as nat)
                    && rows@[k].1 == (if first + k == self.cursor.y {
                    self.theme.fg_line_number_active
                } else {
                    self.theme.fg_line_number
                }),
    {
        let mut rows: Vec<(String, Color)> = Vec::new();
        let mut k: usize = 0;
        while k < count
            invariant
                k <= count,
                first + count < usize::MAX,
                rows@.len() == k,
                forall|j: int|
                    0 <= j < k ==> (#[trigger] rows@[j]).0@ == line_number_label_of((first + j + 1) as nat)
                        && rows@[j].1 == (if first + j == self.cursor.y {
                        self.theme.fg_line_number_active
                    } else {
                        self.theme.fg_line_number
                    }),
            decreases count - k,
        {
            let line = first + k;
            rows.push((line_number_label(line + 1), self.line_number_color(line)));
            k += 1;
        }
        rows
    }

    /// Places the tab bar in `area`: clicks on the bar are read there, and
    /// the result is the cells of the tabs drawn and the column where they
    /// end, as `tab_cells` gives them.
    pub fn place_tabs(&mut self, area: Rect) -> (r: (Vec<TabCell>, u16))
        requires
            area.x + area.width <= u16::MAX,
            cells_fit(*old(self), 0, area.x as int, area.x + area.width),
        ensures
            r.0@ == cells_from(*old(self), 0, area.x as int, area.x + area.width),
            r.1 == cells_end(*old(self), 0, area.x as int, area.x + area.width),
            *final(self) == (App { tabs_area: area, ..*old(self) }),
    {
        self.tabs_area = area;
        proof {
            lemma_cells_ignore_area(*old(self), *self, 0, area.x as int, area.x + area.width);
        }
        self.tab_cells(area)
    }
}

/// The tab cells do not depend on where the tab bar was recorded.
proof fn lemma_cells_ignore_area(a: App, b: App, i: int, x: int, right: int)
    requires
        b == (App { tabs_area: b.tabs_area, ..a }),
    ensures
        cells_from(a, i, x, right) == cells_from(b, i, x, right),
        cells_end(a, i, x, right) == cells_end(b, i, x, right),
        cells_fit(a, i, x, right) == cells_fit(b, i, x, right),
    decreases a.tabs_list@.len() - i,
{
    if 0 <= i < a.tabs_list@.len() {
        let w = label_width(a.tabs_list@[i]);
        lemma_cells_ignore_area(a, b, i + 1, x + w, right);
        assert forall|j: int| tab_look(a, j) == tab_look(b, j) by {}
    }
}

/// The tabs from the `i`-th to the `k`-th have names whose label widths
/// stay below 65536, so the label and the click columns agree.
pub open spec fn labels_fit(tabs: Seq<TabItem>, i: int, k: int) -> bool {
    forall|j: int| i <= j <= k ==> (#[trigger] bytes_of(tabs[j].name@).len()) % 65536 < 65532
}

/// A drawn cell starts no further left than where the layout began, and a
/// column inside the `k`-th drawn cell is a column of the `i + k`-th tab.
proof fn lemma_cell_hit(a: App, i: int, x: int, right: int, k: int, col: int)
    requires
        0 <= i,
        0 <= x,
        cells_fit(a, i, x, right),
        0 <= k < cells_from(a, i, x, right).len(),
        labels_fit(a.tabs_list@, i, i + k),
    ensures
        x <= cells_from(a, i, x, right)[k].x,
        cells_from(a, i, x, right)[k].x <= col < cells_from(a, i, x, right)[k].x + cells_from(a, i, x, right)[k].width
            ==> tab_at_from(a.tabs_list@, i, x, col) == Some(i + k),
    decreases k,
{
    let tabs = a.tabs_list@;
    let w = label_width(tabs[i]);
    assert(bytes_of(tabs[i].name@).len() % 65536 < 65532);
    assert(w == crate::management::tab_management::tab_width(tabs[i]));
    assert(x + w <= u16::MAX);
    assert((x as u16) as int == x);
    assert((w as u16) as int == w);
    if k > 0 {
        assert(cells_from(a, i, x, right)[k] == cells_from(a, i + 1, x + w, right)[k - 1]);
        assert(labels_fit(tabs, i + 1, i + k));
        lemma_cell_hit(a, i + 1, x + w, right, k - 1, col);
    }
}

/// A click inside the cell where the `k`-th tab is drawn finds that tab,
/// when the tab bar was placed there and the labels up to it stay below
/// 65536 columns.
pub proof fn law_click_finds_drawn_tab(a: App, area: Rect, k: int, col: u16)
    requires
        a.tabs_area == area,
        area.x + area.width <= u16::MAX,
        cells_fit(a, 0, area.x as int, area.x + area.width),
        0 <= k < cells_from(a, 0, area.x as int, area.x + area.width).len(),
        labels_fit(a.tabs_list@, 0, k),
        cells_from(a, 0, area.x as int, area.x + area.width)[k].x <= col < cells_from(
            a,
            0,
            area.x as int,
            area.x + area.width,
        )[k].x + cells_from(a, 0, area.x as int, area.x + area.width)[k].width,
    ensures
        crate::management::tab_management::tab_hit(a, col, area.y) == Some(k),
{
    lemma_cell_hit(a, 0, area.x as int, area.x + area.width, k, col as int);
}

} // verus!
