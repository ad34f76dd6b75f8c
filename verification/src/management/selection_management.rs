//! The text selection.
use vstd::prelude::*;

verus! {

/// `a` comes no later than `b` in the text: an earlier line, or the same
/// line and a column no further right. Positions are `(x, y)`.
pub open spec fn position_le(a: (usize, usize), b: (usize, usize)) -> bool {
    a.1 < b.1 || (a.1 == b.1 && a.0 <= b.0)
}

/// A selection that runs from `anchor` to wherever the cursor is.
#[derive(Debug, Clone, Copy)]
pub struct Selection {
    pub anchor: (usize, usize),
}

impl Selection {
    /// The selected range as `(start, end)`, the earlier position first.
    pub fn range(&self, cursor: (usize, usize)) -> (r: ((usize, usize), (usize, usize)))
        ensures
            r == if position_le(self.anchor, cursor) {
                (self.anchor, cursor)
            } else {
                (cursor, self.anchor)
            },
    {
        let anchor_first = self.anchor.1 < cursor.1 || (self.anchor.1 == cursor.1 && self.anchor.0 <= cursor.0);
        if anchor_first {
            (self.anchor, cursor)
        } else {
            (cursor, self.anchor)
        }
    }
}

/// The range of a selection runs forward, covers exactly its two ends, and
/// does not depend on which end is the anchor.
pub proof fn law_selection_range(a: (usize, usize), c: (usize, usize))
    ensures
        ({
            let r = if position_le(a, c) { (a, c) } else { (c, a) };
            let s = if position_le(c, a) { (c, a) } else { (a, c) };
            &&& position_le(r.0, r.1)
            &&& (r == (a, c) || r == (c, a))
            &&& r == s
        }),
{
}

} // verus!
