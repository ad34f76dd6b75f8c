//! The text cursor.
use vstd::prelude::*;

verus! {

/// Where the cursor stands: byte column `x` of line `y`.
#[derive(Debug, Clone, Copy, PartialEq, Eq, Structural)]
pub struct Cursor {
    pub x: usize,
    pub y: usize,
}

impl Default for Cursor {
    fn default() -> (c: Cursor)
        ensures
            c == (Cursor { x: 0, y: 0 }),
    {
        Cursor { x: 0, y: 0 }
    }
}

} // verus!
