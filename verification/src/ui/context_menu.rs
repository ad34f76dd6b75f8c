//! A menu of named operations that pops up at the mouse, which of its
//! options a click picks, and running the option picked.
use vstd::prelude::*;
use crate::app::App;
use crate::ui::utils::Rect;

verus! {

/// Something a context-menu option does to the editor.
pub trait MenuOperation {
    /// Does it to `app`.
    fn perform(&self, app: &mut App);
}

/// A named operation of a context menu; what the operation is, the caller
/// decides (`Op`), and it runs it when the option is picked.
pub struct ContextOption<Op> {
    pub name: String,
    pub operation: Op,
}

impl<Op> ContextOption<Op> {
    /// An option named `name` that runs `operation`.
    pub fn new(name: String, operation: Op) -> (o: ContextOption<Op>)
        ensures
            o.name == name,
            o.operation == operation,
    {
        ContextOption { name, operation }
    }
}

impl<Op: MenuOperation> ContextOption<Op> {
    /// Runs this option's operation on `app`.
    pub fn perform(&self, app: &mut App) {
        self.operation.perform(app);
    }
}

/// The options of a context menu, top to bottom.
pub struct ContextMenu<Op> {
    pub option: Vec<ContextOption<Op>>,
}

/// The option that a click at (`x`, `y`) picks in a menu of `count` options
/// drawn in `popup`: none outside the popup; inside, the row below the top
/// border (a click on the border itself counts as the first row), if the
/// menu has an option there.
pub open spec fn option_clicked(popup: Rect, x: u16, y: u16, count: int) -> Option<int> {
    if x < popup.x || x >= popup.x + popup.width || y < popup.y || y >= popup.y + popup.height {
        None
    } else {
        let row = if y >= popup.y + 1 { y - (popup.y + 1) } else { 0 };
        if row < count {
            Some(row)
        } else {
            None
        }
    }
}

impl<Op> ContextMenu<Op> {
    /// A menu with these options.
    pub fn new(option: Vec<ContextOption<Op>>) -> (m: ContextMenu<Op>)
        ensures
            m.option == option,
    {
        ContextMenu { option }
    }

    /// The number of rows the popup takes: one for each option and two for
    /// its borders.
    pub fn popup_height(&self) -> (h: u16)
        requires
            self.option@.len() % 65536 + 2 <= u16::MAX,
        ensures
            h == self.option@.len() % 65536 + 2,
    {
        let n = self.option.len();
        let content: u16 = (n % 65536) as u16;
        content + 2
    }

    /// The size of the popup, placed at the mouse: forty columns, and a
    /// row for each option plus two for its borders.
    pub fn popup_size(&self) -> (r: (u16, u16))
        requires
            self.option@.len() % 65536 + 2 <= u16::MAX,
        ensures
            r == (40u16, (self.option@.len() % 65536 + 2) as u16),
    {
        (40, self.popup_height())
    }

    /// The option that a click at (`mouse_x`, `mouse_y`) picks, when the
    /// menu is shown in `popup_area` (none when it is not shown).
    pub fn option_at(&self, popup_area: Option<Rect>, mouse_x: u16, mouse_y: u16) -> (r: Option<usize>)
        requires
            popup_area matches Some(p) ==> p.x + p.width <= u16::MAX && p.y + p.height <= u16::MAX,
        ensures
            r == match popup_area {
                Some(p) => match option_clicked(p, mouse_x, mouse_y, self.option@.len() as int) {
                    Some(i) => Some(i as usize),
                    None => None,
                },
                None => None,
            },
    {
        let popup = match popup_area {
            Some(p) => p,
            None => return None,
        };
        if mouse_x < popup.x || mouse_x >= popup.x + popup.width {
            return None;
        }
        if mouse_y < popup.y || mouse_y >= popup.y + popup.height {
            return None;
        }
        let inner_y = popup.y + 1;
        let option_index = mouse_y.saturating_sub(inner_y) as usize;
        if option_index >= self.option.len() {
            return None;
        }
        Some(option_index)
    }
}

impl<Op: MenuOperation> ContextMenu<Op> {
    /// A click at (`mouse_x`, `mouse_y`) on the menu shown in `popup_area`
    /// (none when it is not shown): runs the operation of the option it
    /// picks on `app` and says whether there was one; with none picked,
    /// `app` is left as it is.
    pub fn activate(&self, app: &mut App, popup_area: Option<Rect>, mouse_x: u16, mouse_y: u16) -> (r: bool)
        requires
            popup_area matches Some(p) ==> p.x + p.width <= u16::MAX && p.y + p.height <= u16::MAX,
        ensures
            r == (popup_area matches Some(p) && option_clicked(
                p,
                mouse_x,
                mouse_y,
                self.option@.len() as int,
            ) is Some),
            !r ==> *final(app) == *old(app),
    {
        match self.option_at(popup_area, mouse_x, mouse_y) {
            Some(i) => {
                self.option[i].perform(app);
                true
            },
            None => false,
        }
    }
}

} // verus!
