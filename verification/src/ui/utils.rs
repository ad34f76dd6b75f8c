//! Small computations behind the screen layout and the language overlays.
use vstd::prelude::*;
use vstd::string::*;
use vstd::utf8::*;
use crate::lsp::protocol::HoverContent;

verus! {

broadcast use {vstd::utf8::group_utf8_lib, vstd::seq::group_seq_axioms};

/// A rectangle of terminal cells.
#[derive(Debug, Clone, Copy, PartialEq, Eq, Structural)]
pub struct Rect {
    pub x: u16,
    pub y: u16,
    pub width: u16,
    pub height: u16,
}

impl Default for Rect {
    fn default() -> (r: Rect)
        ensures
            r == (Rect { x: 0, y: 0, width: 0, height: 0 }),
    {
        Rect { x: 0, y: 0, width: 0, height: 0 }
    }
}

/// `a - b`, or 0 when `b` is larger.
pub open spec fn sat_sub(a: int, b: int) -> int {
    if a >= b {
        a - b
    } else {
        0
    }
}

/// The smaller of two integers.
pub open spec fn min_int(a: int, b: int) -> int {
    if a <= b {
        a
    } else {
        b
    }
}

/// A `width` by `height` rectangle centred in `area` (offsets taken from the
/// area's own size), clipped to the area's size.
pub fn centered_rect(width: u16, height: u16, area: Rect) -> (r: Rect)
    ensures
        r.x == sat_sub(area.width as int, width as int) / 2,
        r.y == sat_sub(area.height as int, height as int) / 2,
        r.width == min_int(width as int, area.width as int),
        r.height == min_int(height as int, area.height as int),
{
    Rect {
        x: area.width.saturating_sub(width) / 2,
        y: area.height.saturating_sub(height) / 2,
        width: if width <= area.width { width } else { area.width },
        height: if height <= area.height { height } else { area.height },
    }
}

/// The number of UTF-16 code units that a character takes.
pub open spec fn utf16_width(c: char) -> int {
    if (c as u32) < 0x10000 {
        1
    } else {
        2
    }
}

/// The number of UTF-16 code units that a character sequence takes.
pub open spec fn utf16_units(s: Seq<char>) -> int
    decreases s.len(),
{
    if s.len() == 0 {
        0
    } else {
        utf16_units(s.drop_last()) + utf16_width(s.last())
    }
}

/// `char::len_utf16`.
pub fn len_utf16(c: char) -> (n: usize)
    ensures
        n == utf16_width(c),
{
    if (c as u32) < 0x10000 {
        1
    } else {
        2
    }
}

proof fn lemma_utf16_units_le_bytes(s: Seq<char>)
    ensures
        0 <= utf16_units(s) <= encode_utf8(s).len(),
    decreases s.len(),
{
    if s.len() > 0 {
        let init = s.drop_last();
        lemma_utf16_units_le_bytes(init);
        assert(s =~= init + seq![s.last()]);
        crate::text::lemma_encode_concat(init, seq![s.last()]);
        crate::text::lemma_char_bytes(s.last());
        char_is_scalar(s.last());
        let v = s.last() as u32;
        assert(v >= 0x10000 ==> has_width_4_encoding(v));
    }
}

/// The number of UTF-16 code units that `text` takes (`str::encode_utf16().count()`).
pub fn utf16_len(text: &str) -> (n: usize)
    ensures
        n == utf16_units(text@),
{
    let count = text.unicode_len();
    let byte_count = text.as_bytes().len();
    proof {
        lemma_utf16_units_le_bytes(text@);
        assert(text@.take(0) =~= Seq::<char>::empty());
    }
    let mut units: usize = 0;
    let mut i: usize = 0;
    while i < count
        invariant
            count == text@.len(),
            i <= count,
            units == utf16_units(text@.take(i as int)),
            utf16_units(text@) <= byte_count,
        decreases count - i,
    {
        let c = text.get_char(i);
        proof {
            assert(text@.take(i + 1).drop_last() =~= text@.take(i as int));
            lemma_units_prefix_le(text@, i + 1);
        }
        units = units + len_utf16(c);
        i = i + 1;
    }
    proof {
        assert(text@.take(count as int) =~= text@);
    }
    units
}

/// Reading `s` from column `k` on: the first column whose preceding
/// characters take at least `offset` UTF-16 units, or the length of `s`.
pub open spec fn utf16_col_from(s: Seq<char>, offset: int, k: int) -> int
    decreases s.len() - k,
{
    if k >= s.len() || utf16_units(s.take(k)) >= offset {
        k
    } else {
        utf16_col_from(s, offset, k + 1)
    }
}

/// The column (in characters) of `s` at which `offset` UTF-16 code units
/// have been passed.
pub open spec fn utf16_col(s: Seq<char>, offset: int) -> int {
    utf16_col_from(s, offset, 0)
}

/// A column with the two properties of `utf16_col` is `utf16_col`.
proof fn lemma_utf16_col_is(s: Seq<char>, offset: int, col: int, k: int)
    requires
        0 <= k <= col <= s.len(),
        forall|j: int| 0 <= j < col ==> utf16_units(#[trigger] s.take(j)) < offset,
        col < s.len() ==> utf16_units(s.take(col)) >= offset,
    ensures
        utf16_col_from(s, offset, k) == col,
    decreases col - k,
{
    if k < col {
        assert(utf16_units(s.take(k)) < offset);
        lemma_utf16_col_is(s, offset, col, k + 1);
    }
}

/// The column (in characters) of `text` at which `offset` UTF-16 code units
/// have been passed: the first column whose preceding characters take at
/// least `offset` units, or the length of the text when there is none.
pub fn utf16_column(text: &str, offset: usize) -> (col: usize)
    ensures
        col == utf16_col(text@, offset as int),
        col <= text@.len(),
        forall|k: int| 0 <= k < col ==> utf16_units(#[trigger] text@.take(k)) < offset,
        col < text@.len() ==> utf16_units(text@.take(col as int)) >= offset,
{
    let n = text.unicode_len();
    let byte_count = text.as_bytes().len();
    proof {
        lemma_utf16_units_le_bytes(text@);
    }
    let mut units: usize = 0;
    let mut column: usize = 0;
    proof {
        assert(text@.take(0) =~= Seq::<char>::empty());
    }
    while column < n
        invariant
            n == text@.len(),
            column <= n,
            units == utf16_units(text@.take(column as int)),
            forall|k: int| 0 <= k < column ==> utf16_units(#[trigger] text@.take(k)) < offset,
            utf16_units(text@) <= byte_count,
        decreases n - column,
    {
        if units >= offset {
            proof {
                lemma_utf16_col_is(text@, offset as int, column as int, 0);
            }
            return column;
        }
        let c = text.get_char(column);
        proof {
            let t = text@.take(column + 1);
            assert(t.drop_last() =~= text@.take(column as int));
            lemma_units_prefix_le(text@, column + 1);
        }
        units = units + len_utf16(c);
        column = column + 1;
    }
    proof {
        lemma_utf16_col_is(text@, offset as int, n as int, 0);
    }
    n
}

proof fn lemma_units_prefix_le(s: Seq<char>, k: int)
    requires
        0 <= k <= s.len(),
    ensures
        utf16_units(s.take(k)) <= utf16_units(s),
    decreases s.len() - k,
{
    if k < s.len() {
        lemma_units_prefix_le(s, k + 1);
        assert(s.take(k + 1).drop_last() =~= s.take(k));
    } else {
        assert(s.take(k) =~= s);
    }
}

/// The icon shown beside a completion of the given LSP `CompletionItemKind`.
pub open spec fn completion_icon_text(kind: Option<u32>) -> Seq<char> {
    match kind {
        Some(k) => if k == 1 {
            "T"@
        } else if 2 <= k <= 4 {
            "ƒ"@
        } else if 5 <= k <= 10 {
            "◇"@
        } else if k == 14 {
            "▣"@
        } else if 15 <= k <= 20 {
            "•"@
        } else if 21 <= k <= 22 {
            "↗"@
        } else if k == 23 {
            "⌘"@
        } else if k == 24 {
            "▰"@
        } else {
            "·"@
        },
        None => "·"@,
    }
}

/// The icon for a completion kind.
pub fn completion_icon(kind: Option<u32>) -> (icon: &'static str)
    ensures
        icon@ == completion_icon_text(kind),
{
    match kind {
        Some(k) => if k == 1 {
            "T"
        } else if 2 <= k && k <= 4 {
            "ƒ"
        } else if 5 <= k && k <= 10 {
            "◇"
        } else if k == 14 {
            "▣"
        } else if 15 <= k && k <= 20 {
            "•"
        } else if 21 <= k && k <= 22 {
            "↗"
        } else if k == 23 {
            "⌘"
        } else if k == 24 {
            "▰"
        } else {
            "·"
        },
        None => "·",
    }
}

/// The text shown for hover contents: a string as it is, a list as its items'
/// texts joined by line feeds, an object as its `value` string (or nothing).
pub open spec fn hover_text_of(h: HoverContent) -> Seq<char>
    decreases h, 0int,
{
    match h {
        HoverContent::Text(t) => t@,
        HoverContent::List(items) => joined_hover_texts(items@, items@.len() as int),
        HoverContent::Object(v) => match v {
            Some(s) => s@,
            None => seq![],
        },
        HoverContent::Other => seq![],
    }
}

/// The texts of the first `n` items joined by line feeds.
pub open spec fn joined_hover_texts(items: Seq<HoverContent>, n: int) -> Seq<char>
    decreases items, n,
{
    if n <= 0 || n > items.len() {
        seq![]
    } else if n == 1 {
        hover_text_of(items[0])
    } else {
        joined_hover_texts(items, n - 1) + seq!['\n'] + hover_text_of(items[n - 1])
    }
}

/// The text to show for hover contents.
pub fn hover_text(value: &HoverContent) -> (text: String)
    ensures
        text@ == hover_text_of(*value),
    decreases value,
{
    match value {
        HoverContent::Text(text) => text.clone(),
        HoverContent::List(items) => {
            let mut result = String::new();
            let mut i: usize = 0;
            while i < items.len()
                invariant
                    *value == HoverContent::List(*items),
                    i <= items@.len(),
                    result@ == joined_hover_texts(items@, i as int),
                decreases items@.len() - i,
            {
                proof {
                    assert(decreases_to!(*value => (*value)->List_0));
                    assert(decreases_to!(*items => items@));
                    assert(decreases_to!(items@ => items@[i as int]));
                    assert(decreases_to!(*value => items@[i as int]));
                }
                let part = hover_text(&items[i]);
                if i > 0 {
                    result.append("\n");
                }
                result.append(part.as_str());
                proof {
                    reveal_strlit("\n");
                    if i == 0 {
                        assert(result@ =~= joined_hover_texts(items@, 1));
                    } else {
                        assert(result@ =~= joined_hover_texts(items@, i + 1));
                    }
                }
                i += 1;
            }
            result
        },
        HoverContent::Object(v) => match v {
            Some(s) => s.clone(),
            None => String::new(),
        },
        HoverContent::Other => String::new(),
    }
}

/// Reading from column `k` stops at the first column reaching the offset.
proof fn lemma_utf16_col_from(s: Seq<char>, offset: int, k: int)
    requires
        0 <= k <= s.len(),
    ensures
        k <= utf16_col_from(s, offset, k) <= s.len(),
        forall|j: int| k <= j < utf16_col_from(s, offset, k) ==> utf16_units(#[trigger] s.take(j)) < offset,
        utf16_col_from(s, offset, k) < s.len() ==> utf16_units(s.take(utf16_col_from(s, offset, k))) >= offset,
    decreases s.len() - k,
{
    if k < s.len() && utf16_units(s.take(k)) < offset {
        lemma_utf16_col_from(s, offset, k + 1);
    }
}

/// Each character takes at least one UTF-16 unit, so a longer prefix takes
/// more units.
proof fn lemma_utf16_units_grow(s: Seq<char>, j: int, c: int)
    requires
        0 <= j < c <= s.len(),
    ensures
        utf16_units(s.take(j)) < utf16_units(s.take(c)),
    decreases c - j,
{
    assert(s.take(c).drop_last() =~= s.take(c - 1));
    if j < c - 1 {
        lemma_utf16_units_grow(s, j, c - 1);
    }
}

/// The column of a UTF-16 offset is the first column whose preceding
/// characters take at least that many units (the end of the line when none
/// does); it never goes left as the offset grows, and the offset of a
/// column's start gives that column back.
pub proof fn law_utf16_column(s: Seq<char>, o1: int, o2: int, c: int)
    requires
        o1 <= o2,
        0 <= c <= s.len(),
    ensures
        0 <= utf16_col(s, o1) <= s.len(),
        forall|j: int| 0 <= j < utf16_col(s, o1) ==> utf16_units(#[trigger] s.take(j)) < o1,
        utf16_col(s, o1) < s.len() ==> utf16_units(s.take(utf16_col(s, o1))) >= o1,
        utf16_col(s, o1) <= utf16_col(s, o2),
        utf16_col(s, utf16_units(s.take(c))) == c,
{
    lemma_utf16_col_from(s, o1, 0);
    lemma_utf16_col_from(s, o2, 0);
    let c1 = utf16_col(s, o1);
    let c2 = utf16_col(s, o2);
    if c2 < c1 {
        assert(utf16_units(s.take(c2)) < o1);
    }
    let u = utf16_units(s.take(c));
    assert forall|j: int| 0 <= j < c implies utf16_units(#[trigger] s.take(j)) < u by {
        lemma_utf16_units_grow(s, j, c);
    }
    lemma_utf16_col_is(s, u, c, 0);
}

} // verus!
