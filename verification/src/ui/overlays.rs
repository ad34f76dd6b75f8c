//! What the language overlays put on screen: the marks of diagnostics and
//! semantic tokens, and where the completion list and the hover popup go.
use vstd::prelude::*;
use crate::app::App;
use crate::editor::document::text_lines;
use crate::lsp::protocol::{CompletionItem, Diagnostic, SemanticToken};
use crate::text::{bytes_of, str_eq};
use crate::ui::colors::Color;
use crate::ui::utils::{
    completion_icon, completion_icon_text, hover_text, hover_text_of, min_int, sat_sub, utf16_col, utf16_column, Rect,
};
use crate::editor::document::Document;

verus! {

/// Where a diagnostic is marked: the row of the view, the columns (in
/// characters) underlined, the column of a caret shown past the end of the
/// line, and whether it is only a warning.
#[derive(Debug, Clone, Copy, PartialEq, Eq, Structural)]
pub struct DiagnosticMark {
    pub row: usize,
    pub start: usize,
    pub end: usize,
    pub caret: Option<usize>,
    pub warning: bool,
}

/// Where a semantic token is coloured: the row of the view, the columns (in
/// characters), and the colour.
#[derive(Debug, Clone, Copy, PartialEq, Eq, Structural)]
pub struct TokenMark {
    pub row: usize,
    pub start: usize,
    pub end: usize,
    pub color: Color,
}

/// Which completions the list shows, and where.
#[derive(Debug, Clone, Copy, PartialEq, Eq, Structural)]
pub struct CompletionPopup {
    pub area: Rect,
    pub page: usize,
    pub count: usize,
}

/// Line `line` is among the `height` lines shown from `scroll`.
pub open spec fn line_shown(scroll: int, height: int, line: int) -> bool {
    scroll <= line < scroll + height
}

/// The mark of diagnostic `d` in a view of `height` rows and `width`
/// columns of `a`'s text: columns from its start to its end (taken on the
/// line where it starts, at least one column), underlined as far as the
/// line goes, and a caret where it starts past the end of the line.
pub open spec fn diagnostic_mark_of(a: App, d: Diagnostic, height: int, width: int) -> Option<DiagnosticMark> {
    let line = d.range.start.line as int;
    if !line_shown(a.scroll_y as int, height, line) {
        None
    } else {
        let text = a.document.lines@[line]@;
        let start = utf16_col(text, d.range.start.character as int);
        let end0 = utf16_col(text, d.range.end.character as int);
        let end = if end0 >= start + 1 { end0 } else { start + 1 };
        Some(DiagnosticMark {
            row: (line - a.scroll_y) as usize,
            start: start as usize,
            end: min_int(end, text.len() as int) as usize,
            caret: if start >= text.len() { Some(min_int(start, sat_sub(width, 1)) as usize) } else { None },
            warning: d.severity == Some(2u32),
        })
    }
}

/// The colour of a semantic token type, for the types that are coloured.
pub open spec fn token_color_of(token_type: Seq<char>) -> Option<Color> {
    if token_type == "namespace"@ || token_type == "type"@ || token_type == "class"@ || token_type == "enum"@
        || token_type == "interface"@ || token_type == "struct"@ || token_type == "typeParameter"@ {
        Some(Color::Rgb(86, 182, 194))
    } else if token_type == "function"@ || token_type == "method"@ {
        Some(Color::Rgb(97, 175, 239))
    } else if token_type == "property"@ || token_type == "enumMember"@ || token_type == "parameter"@
        || token_type == "variable"@ {
        Some(Color::Rgb(224, 108, 117))
    } else if token_type == "macro"@ {
        Some(Color::Rgb(198, 120, 221))
    } else {
        None
    }
}

/// The UTF-16 positions `(line, character)` ordered line first.
pub open spec fn pos_le(a: (int, int), b: (int, int)) -> bool {
    a.0 < b.0 || (a.0 == b.0 && a.1 <= b.1)
}

/// The first diagnostic from the `i`-th on whose span holds `pos`.
pub open spec fn covering_from(ds: Seq<Diagnostic>, pos: (int, int), i: int) -> Option<int>
    decreases ds.len() - i,
{
    if i < 0 || i >= ds.len() {
        None
    } else if pos_le(
        (ds[i].range.start.line as int, ds[i].range.start.character as int),
        pos,
    ) && pos_le(pos, (ds[i].range.end.line as int, ds[i].range.end.character as int)) {
        Some(i)
    } else {
        covering_from(ds, pos, i + 1)
    }
}

/// The text of the hover popup: the hover reply, or else the message of
/// the first diagnostic that holds the position hovered over, or nothing.
pub open spec fn hover_message_of(a: App) -> Seq<char> {
    match a.hover {
        Some(h) => hover_text_of(h.contents),
        None => match a.hover_position {
            Some((line, character)) => match covering_from(a.diagnostics@, (line as int, character as int), 0) {
                Some(i) => a.diagnostics@[i].message@,
                None => Seq::empty(),
            },
            None => Seq::empty(),
        },
    }
}

/// The rows a line of `chars` characters takes when wrapped at `width`.
pub open spec fn wrapped_rows(chars: int, width: int) -> int {
    let c = if chars >= 1 { chars } else { 1 };
    (c + width - 1) / width
}

/// The rows the lines of `text` take when wrapped at `width`, from line `i`
/// on.
pub open spec fn text_rows_from(lines: Seq<Seq<u8>>, width: int, i: int) -> int
    decreases lines.len() - i,
{
    if i < 0 || i >= lines.len() {
        0
    } else {
        wrapped_rows(vstd::utf8::decode_utf8(lines[i]).len() as int, width) + text_rows_from(lines, width, i + 1)
    }
}

/// Wrapped lines take no fewer than no rows.
proof fn lemma_text_rows_nonneg(lines: Seq<Seq<u8>>, width: int, i: int)
    requires
        width > 0,
    ensures
        text_rows_from(lines, width, i) >= 0,
    decreases lines.len() - i,
{
    if 0 <= i < lines.len() {
        lemma_text_rows_nonneg(lines, width, i + 1);
        let c = vstd::utf8::decode_utf8(lines[i]).len() as int;
        let c1 = if c >= 1 { c } else { 1 };
        assert((c1 + width - 1) / width >= 0) by (nonlinear_arith)
            requires
                c1 >= 1,
                width > 0,
        ;
    }
}

/// `n` kept between `lo` and `hi`.
pub open spec fn clamp(n: int, lo: int, hi: int) -> int {
    if n < lo {
        lo
    } else if n > hi {
        hi
    } else {
        n
    }
}

/// Where the hover popup for `text` goes in `area`, next to the cell
/// `anchor` (the area's corner without one): on the side with more room,
/// at most 60 columns wide and 6 rows high, below the anchor unless there
/// is more room above; nowhere when there is no room beside it.
pub open spec fn hover_popup_of(text: Seq<char>, anchor: Option<(u16, u16)>, area: Rect) -> Option<Rect> {
    let (ax, ay) = match anchor {
        Some(p) => (p.0 as int, p.1 as int),
        None => (area.x as int, area.y as int),
    };
    let right = sat_sub(area.x + area.width, ax + 1);
    let left = sat_sub(ax, area.x as int);
    let width = min_int(if right >= left { right } else { left }, 60);
    if text.len() == 0 || width == 0 {
        None
    } else {
        let height = clamp(text_rows_from(text_lines(bytes_of(text)), width, 0), 1, 6);
        let x = if right >= left { ax + 1 } else { ax - width };
        let below = sat_sub(area.y + area.height, ay + 1);
        let above = sat_sub(ay, area.y as int);
        let y = if below >= height || below >= above { ay + 1 } else { sat_sub(ay, height) };
        Some(Rect {
            x: x as u16,
            y: y as u16,
            width: width as u16,
            height: min_int(height, area.y + area.height - y) as u16,
        })
    }
}

/// Placing the hover popup stays within 16 bits.
pub open spec fn hover_popup_fits(text: Seq<char>, anchor: Option<(u16, u16)>, area: Rect) -> bool {
    let (ax, ay) = match anchor {
        Some(p) => (p.0 as int, p.1 as int),
        None => (area.x as int, area.y as int),
    };
    &&& area.x + area.width <= u16::MAX
    &&& area.y + area.height <= u16::MAX
    &&& ax + 1 <= u16::MAX
    &&& ay + 1 <= u16::MAX
    &&& match hover_popup_of(text, anchor, area) {
        Some(r) => r.y <= area.y + area.height,
        None => true,
    }
}

/// The first completion shown: the start of the page of eight that holds
/// the selected one.
pub open spec fn completion_page(selected: int) -> int {
    selected / 8 * 8
}

/// The widest label among `items`, counted in bytes.
pub open spec fn widest_label(items: Seq<CompletionItem>) -> int
    decreases items.len(),
{
    if items.len() == 0 {
        0
    } else {
        let w = bytes_of(items.last().label@).len() as int;
        let rest = widest_label(items.drop_last());
        if w >= rest { w } else { rest }
    }
}

/// The completions shown for `a`: from the page start, at most eight.
pub open spec fn shown_completions(a: App) -> Seq<CompletionItem> {
    let page = completion_page(a.completion_selected as int);
    let end = min_int(a.completions@.len() as int, page + 8);
    a.completions@.subrange(page, end)
}

/// Where the completion list of `a` goes in the text area `area`: under the
/// cursor, as wide as the widest label (at most 50) plus 4, one row per
/// completion shown, kept inside the area where it can be.
pub open spec fn completion_popup_of(a: App, area: Rect) -> CompletionPopup {
    let shown = shown_completions(a);
    let width = min_int(widest_label(shown), 50) + 4;
    let height = shown.len() as int;
    let cx = area.x + (a.cursor.x as int % 65536);
    let x = min_int(cx, area.x + sat_sub(area.width as int, width));
    let cy = area.y + ((a.cursor.y - a.scroll_y) % 65536) + 1;
    let y = min_int(cy, area.y + sat_sub(area.height as int, height));
    CompletionPopup {
        area: Rect { x: x as u16, y: y as u16, width: width as u16, height: height as u16 },
        page: completion_page(a.completion_selected as int) as usize,
        count: height as usize,
    }
}

/// Placing the completion list of `a` is defined and stays within 16 bits.
pub open spec fn completion_popup_fits(a: App, area: Rect) -> bool {
    let page = completion_page(a.completion_selected as int);
    &&& page <= a.completions@.len()
    &&& page + 8 <= usize::MAX
    &&& a.cursor.y >= a.scroll_y
    &&& area.x + (a.cursor.x as int % 65536) <= u16::MAX
    &&& area.x + area.width <= u16::MAX
    &&& area.y + ((a.cursor.y - a.scroll_y) % 65536) + 1 <= u16::MAX
    &&& area.y + area.height <= u16::MAX
}

/// Whether `a` and `b` are the same string.
fn same(a: &str, b: &str) -> (r: bool)
    ensures
        r == (a@ == b@),
{
    str_eq(a, b)
}

/// The colour of a semantic token type, for the types that are coloured.
pub fn token_color(token_type: &str) -> (c: Option<Color>)
    ensures
        c == token_color_of(token_type@),
{
    let t = token_type;
    if same(t, "namespace") || same(t, "type") || same(t, "class") || same(t, "enum") || same(t, "interface")
        || same(t, "struct") || same(t, "typeParameter") {
        Some(Color::Rgb(86, 182, 194))
    } else if same(t, "function") || same(t, "method") {
        Some(Color::Rgb(97, 175, 239))
    } else if same(t, "property") || same(t, "enumMember") || same(t, "parameter") || same(t, "variable") {
        Some(Color::Rgb(224, 108, 117))
    } else if same(t, "macro") {
        Some(Color::Rgb(198, 120, 221))
    } else {
        None
    }
}

impl App {
    /// Where diagnostic `d` is marked in a view of `height` rows and
    /// `width` columns; nothing when its line is not shown.
    pub fn diagnostic_mark(&self, d: &Diagnostic, height: u16, width: u16) -> (m: Option<DiagnosticMark>)
        requires
            self.scroll_y + height <= usize::MAX,
            line_shown(self.scroll_y as int, height as int, d.range.start.line as int) ==> d.range.start.line
                < self.document.lines@.len() && self.document.lines@[d.range.start.line as int]@.len() < usize::MAX,
        ensures
            m == diagnostic_mark_of(*self, *d, height as int, width as int),
    {
        let line = d.range.start.line as usize;
        if line < self.scroll_y || line >= self.scroll_y + height as usize {
            return None;
        }
        let text = self.document.lines[line].as_str();
        let count = text.unicode_len();
        let start = utf16_column(text, d.range.start.character as usize);
        let end0 = utf16_column(text, d.range.end.character as usize);
        let end = if end0 >= start + 1 {
            end0
        } else {
            start + 1
        };
        let caret = if start >= count {
            let last = (width as usize).saturating_sub(1);
            Some(
                if start <= last {
                    start
                } else {
                    last
                },
            )
        } else {
            None
        };
        Some(DiagnosticMark {
            row: line - self.scroll_y,
            start,
            end: if end <= count {
                end
            } else {
                count
            },
            caret,
            warning: d.severity == Some(2u32),
        })
    }

    /// Where a semantic token on `line` is coloured in a view of `height`
    /// rows; nothing when the line is not shown or does not exist, or the
    /// token's type is not coloured.
    pub fn token_mark(&self, line: usize, token: &SemanticToken, height: u16) -> (m: Option<TokenMark>)
        requires
            self.scroll_y + height <= usize::MAX,
            token.start + token.length <= usize::MAX,
        ensures
            m == (if !line_shown(self.scroll_y as int, height as int, line as int) || line >= self.document.lines@.len() {
                None
            } else {
                match token_color_of(token.token_type@) {
                    None => None,
                    Some(color) => {
                        let text = self.document.lines@[line as int]@;
                        Some(TokenMark {
                            row: (line - self.scroll_y) as usize,
                            start: utf16_col(text, token.start as int) as usize,
                            end: utf16_col(text, token.start + token.length) as usize,
                            color,
                        })
                    },
                }
            }),
    {
        if line < self.scroll_y || line >= self.scroll_y + height as usize || line >= self.document.lines.len() {
            return None;
        }
        match token_color(token.token_type.as_str()) {
            None => None,
            Some(color) => {
                let text = self.document.lines[line].as_str();
                let start = utf16_column(text, token.start);
                let end = utf16_column(text, token.start + token.length);
                Some(TokenMark { row: line - self.scroll_y, start, end, color })
            },
        }
    }

    /// The text of the hover popup.
    pub fn hover_message(&self) -> (text: String)
        ensures
            text@ == hover_message_of(*self),
    {
        match &self.hover {
            Some(h) => hover_text(&h.contents),
            None => match self.hover_position {
                Some((line, character)) => {
                    let n = self.diagnostics.len();
                    let mut i: usize = 0;
                    while i < n
                        invariant
                            n == self.diagnostics@.len(),
                            i <= n,
                            self.hover is None,
                            self.hover_position == Some((line, character)),
                            covering_from(self.diagnostics@, (line as int, character as int), 0) == covering_from(
                                self.diagnostics@,
                                (line as int, character as int),
                                i as int,
                            ),
                        decreases n - i,
                    {
                        let r = self.diagnostics[i].range;
                        let (sl, sc) = (r.start.line as usize, r.start.character as usize);
                        let (el, ec) = (r.end.line as usize, r.end.character as usize);
                        let after_start = sl < line || (sl == line && sc <= character);
                        let before_end = line < el || (line == el && character <= ec);
                        if after_start && before_end {
                            return self.diagnostics[i].message.clone();
                        }
                        i += 1;
                    }
                    String::new()
                },
                None => String::new(),
            },
        }
    }

    /// Where the completion list goes in the text area `area`.
    pub fn completion_popup(&self, area: Rect) -> (p: CompletionPopup)
        requires
            completion_popup_fits(*self, area),
        ensures
            p == completion_popup_of(*self, area),
    {
        let len = self.completions.len();
        let page = self.completion_selected / 8 * 8;
        let end = if page + 8 <= len {
            page + 8
        } else {
            len
        };
        let ghost shown = self.completions@.subrange(page as int, end as int);
        let mut widest: usize = 0;
        let mut i = page;
        proof {
            assert(shown.subrange(0, 0) =~= Seq::<CompletionItem>::empty());
        }
        while i < end
            invariant
                page <= i <= end <= len,
                len == self.completions@.len(),
                shown == self.completions@.subrange(page as int, end as int),
                widest == widest_label(shown.subrange(0, i - page)),
                widest <= usize::MAX,
            decreases end - i,
        {
            let w = crate::text::byte_len(self.completions[i].label.as_str());
            proof {
                let p = shown.subrange(0, i + 1 - page);
                assert(p.drop_last() =~= shown.subrange(0, i - page));
                assert(p.last() == self.completions@[i as int]);
            }
            if w > widest {
                widest = w;
            }
            i += 1;
        }
        proof {
            assert(shown.subrange(0, end - page) =~= shown);
        }
        proof {
            crate::management::tab_management::lemma_u16_cut(self.cursor.x);
            crate::management::tab_management::lemma_u16_cut((self.cursor.y - self.scroll_y) as usize);
        }
        let width: u16 = (if widest <= 50 {
            widest
        } else {
            50
        }) as u16 + 4;
        let height: u16 = (end - page) as u16;
        let cx = area.x + self.cursor.x as u16;
        let room_x = area.x + area.width.saturating_sub(width);
        let x = if cx <= room_x {
            cx
        } else {
            room_x
        };
        let cy = area.y + (self.cursor.y - self.scroll_y) as u16 + 1;
        let room_y = area.y + area.height.saturating_sub(height);
        let y = if cy <= room_y {
            cy
        } else {
            room_y
        };
        CompletionPopup { area: Rect { x, y, width, height }, page, count: end - page }
    }
}

/// Where the hover popup for `text` goes in `area`, next to `anchor`.
pub fn hover_popup(text: &str, anchor: Option<(u16, u16)>, area: Rect) -> (r: Option<Rect>)
    requires
        hover_popup_fits(text@, anchor, area),
    ensures
        r == hover_popup_of(text@, anchor, area),
{
    let (ax, ay) = match anchor {
        Some(p) => p,
        None => (area.x, area.y),
    };
    let right = (area.x + area.width).saturating_sub(ax + 1);
    let left = ax.saturating_sub(area.x);
    let wide = if right >= left {
        right
    } else {
        left
    };
    let width = if wide <= 60 {
        wide
    } else {
        60
    };
    if text.unicode_len() == 0 || width == 0 {
        return None;
    }
    let doc = Document::from_text(text);
    let n = doc.lines.len();
    let mut rows: usize = 0;
    let mut i: usize = 0;
    let ghost lines = text_lines(bytes_of(text@));
    while i < n && rows < 6
        invariant
            n == doc.lines@.len(),
            doc@ == lines,
            i <= n,
            width > 0,
            rows <= 6,
            rows < 6 ==> rows + text_rows_from(lines, width as int, i as int) == text_rows_from(lines, width as int, 0),
            rows >= 6 ==> text_rows_from(lines, width as int, 0) >= 6,
        decreases n - i,
    {
        let chars = doc.lines[i].as_str().unicode_len();
        proof {
            vstd::utf8::encode_utf8_decode_utf8(doc.lines@[i as int]@);
            assert(doc@[i as int] == bytes_of(doc.lines@[i as int]@));
        }
        let c = if chars >= 1 {
            chars
        } else {
            1
        };
        let w = width as usize;
        assert((c as int - 1) / (w as int) <= c as int - 1) by (nonlinear_arith)
            requires
                w > 0,
                c >= 1,
        ;
        let more = (c - 1) / w + 1;
        proof {
            assert(more as int == (c as int + w as int - 1) / (w as int)) by (nonlinear_arith)
                requires
                    w > 0,
                    c >= 1,
                    more as int == (c as int - 1) / (w as int) + 1,
            ;
        }
        proof {
            lemma_text_rows_nonneg(lines, width as int, i + 1);
        }
        rows = if more >= 6 || rows + more >= 6 {
            6
        } else {
            rows + more
        };
        i += 1;
    }
    proof {
        lemma_text_rows_nonneg(lines, width as int, i as int);
    }
    let height: u16 = if rows < 1 {
        1
    } else if rows > 6 {
        6
    } else {
        rows as u16
    };
    let x = if right >= left {
        ax + 1
    } else {
        ax - width
    };
    let below = (area.y + area.height).saturating_sub(ay + 1);
    let above = ay.saturating_sub(area.y);
    let y = if below >= height || below >= above {
        ay + 1
    } else {
        ay.saturating_sub(height)
    };
    let room = area.y + area.height - y;
    Some(Rect { x, y, width, height: if height <= room { height } else { room } })
}

/// The text of a row of the completion list: a space, the icon of the
/// item's kind, a space and the label.
pub open spec fn completion_row_text(item: CompletionItem) -> Seq<char> {
    " "@ + completion_icon_text(item.kind) + " "@ + item.label@
}

impl App {
    /// The rows of the completion list, top to bottom: one for each shown
    /// completion (the page of eight that holds the selection), with its
    /// text and whether it is the selected one.
    pub fn completion_rows(&self) -> (rows: Vec<(String, bool)>)
        requires
            completion_page(self.completion_selected as int) <= self.completions@.len(),
            completion_page(self.completion_selected as int) + 8 <= usize::MAX,
        ensures
            rows@.len() == shown_completions(*self).len(),
            forall|k: int|
                0 <= k < rows@.len() ==> (#[trigger] rows@[k]).0@ == completion_row_text(shown_completions(*self)[k])
                    && rows@[k].1 == (completion_page(self.completion_selected as int) + k
                    == self.completion_selected),
    {
        let page = self.completion_selected / 8 * 8;
        let n = self.completions.len();
        let end = if page + 8 < n { page + 8 } else { n };
        let ghost shown = shown_completions(*self);
        let mut rows: Vec<(String, bool)> = Vec::new();
        let mut i = page;
        while i < end
            invariant
                page == completion_page(self.completion_selected as int),
                page <= i <= end,
                end == min_int(n as int, page + 8),
                n == self.completions@.len(),
                shown == self.completions@.subrange(page as int, end as int),
                rows@.len() == i - page,
                forall|k: int|
                    0 <= k < rows@.len() ==> (#[trigger] rows@[k]).0@ == completion_row_text(shown[k])
                        && rows@[k].1 == (page + k == self.completion_selected),
            decreases end - i,
        {
            let item = &self.completions[i];
            let mut text = String::from_str(" ");
            text.append(completion_icon(item.kind));
            text.append(" ");
            text.append(item.label.as_str());
            proof {
                assert(shown[i - page] == self.completions@[i as int]);
            }
            rows.push((text, i == self.completion_selected));
            i += 1;
        }
        rows
    }
}

} // verus!
