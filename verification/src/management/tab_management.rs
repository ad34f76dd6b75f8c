//! Open files shown as tabs: where a click lands, dragging a tab to a new
//! place, and which file to show when one closes.
use vstd::prelude::*;
use crate::app::{opt_index, App, OpenNotice};
use crate::editor::cursor::Cursor;
use crate::editor::document::{text_lines, Document};
use crate::management::input_management::MouseEvent;
use crate::paths::{file_name_of, path_eq, path_file_name, same_path};
use crate::text::{byte_len, bytes_of, str_eq};

verus! {

/// An open file: its name, its path, and where its cursor and scroll stood.
#[derive(Debug)]
pub struct TabItem {
    pub name: String,
    pub path: String,
    pub cursor: Cursor,
    pub scroll_y: usize,
}

impl Clone for TabItem {
    fn clone(&self) -> (t: TabItem)
        ensures
            t == *self,
    {
        TabItem { name: self.name.clone(), path: self.path.clone(), cursor: self.cursor, scroll_y: self.scroll_y }
    }
}

/// The cells a tab takes in the tab bar: its label `" name x "`, whose
/// byte length is cut to 16 bits as the layout does.
pub open spec fn tab_width(t: TabItem) -> int {
    (bytes_of(t.name@).len() as int % 65536) + 4
}

/// A cast to `u16` keeps the low 16 bits.
pub proof fn lemma_u16_cut(n: usize)
    ensures
        (n as u16) == n % 65536,
{
    assert((n as u16) == n % 65536) by (bit_vector);
}

/// The cells taken by the first `k` tabs.
pub open spec fn tabs_width(tabs: Seq<TabItem>, k: int) -> int
    decreases k,
{
    if k <= 0 {
        0
    } else {
        tabs_width(tabs, k - 1) + tab_width(tabs[k - 1])
    }
}

/// Reading the tabs from the `i`-th on, laid out from column `x`: the
/// index of the first tab that covers `column`.
pub open spec fn tab_at_from(tabs: Seq<TabItem>, i: int, x: int, column: int) -> Option<int>
    decreases tabs.len() - i,
{
    if i < 0 || i >= tabs.len() {
        None
    } else if x <= column < x + tab_width(tabs[i]) {
        Some(i)
    } else {
        tab_at_from(tabs, i + 1, x + tab_width(tabs[i]), column)
    }
}

/// The same reading stays within 16-bit columns up to the tab it stops at.
pub open spec fn tab_scan_fits(tabs: Seq<TabItem>, i: int, x: int, column: int) -> bool
    decreases tabs.len() - i,
{
    if i < 0 || i >= tabs.len() {
        true
    } else {
        let w = tab_width(tabs[i]);
        x + w <= u16::MAX && (x <= column < x + w || tab_scan_fits(tabs, i + 1, x + w, column))
    }
}

/// The tab under the cell `(column, row)` of `a`'s tab bar.
pub open spec fn tab_hit(a: App, column: u16, row: u16) -> Option<int> {
    if row != a.tabs_area.y {
        None
    } else {
        tab_at_from(a.tabs_list@, 0, a.tabs_area.x as int, column as int)
    }
}

/// Finding the tab under `(column, row)` stays within 16-bit columns.
pub open spec fn tab_hit_fits(a: App, column: u16, row: u16) -> bool {
    row == a.tabs_area.y ==> tab_scan_fits(a.tabs_list@, 0, a.tabs_area.x as int, column as int)
}

/// The index of the first tab from the `i`-th on whose path is the same
/// path as `path`.
pub open spec fn path_index_from(tabs: Seq<TabItem>, path: Seq<char>, i: int) -> Option<int>
    decreases tabs.len() - i,
{
    if i < 0 || i >= tabs.len() {
        None
    } else if same_path(tabs[i].path@, path) {
        Some(i)
    } else {
        path_index_from(tabs, path, i + 1)
    }
}

/// The index of the first tab from the `i`-th on whose path is the string
/// `file`.
pub open spec fn file_index_from(tabs: Seq<TabItem>, file: Seq<char>, i: int) -> Option<int>
    decreases tabs.len() - i,
{
    if i < 0 || i >= tabs.len() {
        None
    } else if tabs[i].path@ == file {
        Some(i)
    } else {
        file_index_from(tabs, file, i + 1)
    }
}

/// `tabs` with the `from`-th tab taken out and put back at index `to`.
pub open spec fn moved_tab(tabs: Seq<TabItem>, from: int, to: int) -> Seq<TabItem> {
    tabs.remove(from).insert(to, tabs[from])
}

/// The tab shown after the `idx`-th of `tabs` (now `left`) closed: the one
/// that took its place, or the new last one.
pub open spec fn next_after_close(left: Seq<TabItem>, idx: int) -> TabItem {
    if idx < left.len() {
        left[idx]
    } else {
        left[left.len() - 1]
    }
}

/// `b` and `next` are `a` and the tab to show after the `idx`-th tab
/// closed, which was the file on screen when `current`: with no tab left the
/// editor is left without a file.
pub open spec fn closed_tab_at(a: App, idx: int, current: bool, b: App, next: Option<TabItem>) -> bool {
    let left = a.tabs_list@.remove(idx);
    if !current {
        &&& next is None
        &&& b == (App { tabs_list: b.tabs_list, ..a })
        &&& b.tabs_list@ == left
    } else if left.len() == 0 {
        &&& next is None
        &&& b.tabs_list@ == left
        &&& App::blank_file(App { tabs_list: b.tabs_list, ..a }, b)
    } else {
        &&& next == Some(next_after_close(left, idx))
        &&& b == (App { tabs_list: b.tabs_list, ..a })
        &&& b.tabs_list@ == left
    }
}

/// `b` is `a` with the cursor and scroll of the file on screen stored in
/// its tab.
pub open spec fn tab_state_saved(a: App, b: App) -> bool {
    match file_index_from(a.tabs_list@, a.current_file@, 0) {
        Some(i) => {
            &&& b.tabs_list@ == a.tabs_list@.update(
                i,
                TabItem { cursor: a.cursor, scroll_y: a.scroll_y, ..a.tabs_list@[i] },
            )
            &&& b == (App { tabs_list: b.tabs_list, ..a })
        },
        None => b == a,
    }
}

/// `b` and `n` are `a` and what the server is told after switching to
/// `tab`, whose file read as `content` (or could not be read): the tab's
/// state is stored first, then the file's text, cursor and scroll come in.
pub open spec fn switched_to(a: App, tab: TabItem, content: Option<Seq<char>>, b: App, n: Option<OpenNotice>) -> bool {
    exists|s: App|
        #![trigger tab_state_saved(a, s)]
        tab_state_saved(a, s) && match content {
            Some(text) => {
                &&& b.document@ == text_lines(bytes_of(text))
                &&& b.current_file@ == tab.path@
                &&& crate::app::strings_view(b.last_saved@) == crate::app::strings_view(b.document.lines@)
                &&& b == (App {
                    document: b.document,
                    current_file: b.current_file,
                    last_saved: b.last_saved,
                    cursor: tab.cursor,
                    scroll_y: tab.scroll_y,
                    ..s
                })
                &&& App::open_notice_ok(b, n)
            },
            None => {
                &&& n is None
                &&& b.status_text@ == "failed to open file"@
                &&& b == (App { status: true, status_text: b.status_text, ..s })
            },
        }
}

impl App {
    /// The tab under the cell `(column, row)` of the tab bar.
    pub fn tab_index_at(&self, column: u16, row: u16) -> (r: Option<usize>)
        requires
            tab_hit_fits(*self, column, row),
        ensures
            opt_index(r) == tab_hit(*self, column, row),
    {
        let area = self.tabs_area;
        if row != area.y {
            return None;
        }
        let ghost tabs = self.tabs_list@;
        let n = self.tabs_list.len();
        let mut x: u16 = area.x;
        let mut i: usize = 0;
        while i < n
            invariant
                n == tabs.len(),
                tabs == self.tabs_list@,
                area == self.tabs_area,
                row == area.y,
                i <= n,
                tab_at_from(tabs, 0, area.x as int, column as int) == tab_at_from(tabs, i as int, x as int, column as int),
                tab_scan_fits(tabs, i as int, x as int, column as int),
            decreases n - i,
        {
            let len = byte_len(self.tabs_list[i].name.as_str());
            proof {
                lemma_u16_cut(len);
            }
            let w: u16 = (len as u16) + 4;
            if column >= x && column < x + w {
                return Some(i);
            }
            x = x + w;
            i += 1;
        }
        None
    }

    /// Starts dragging the tab under the mouse, if any.
    pub fn start_tab_drag(&mut self, mouse: MouseEvent)
        requires
            tab_hit_fits(*old(self), mouse.column, mouse.row),
        ensures
            match tab_hit(*old(self), mouse.column, mouse.row) {
                Some(i) => *final(self) == (App {
                    dragging_tab: Some(i as usize),
                    tab_drag_target: Some(i as usize),
                    ..*old(self)
                }),
                None => *final(self) == *old(self),
            },
    {
        if let Some(index) = self.tab_index_at(mouse.column, mouse.row) {
            self.dragging_tab = Some(index);
            self.tab_drag_target = Some(index);
        }
    }

    /// Moves the drop target to the tab under the mouse, or to the last tab
    /// when the mouse is on the tab bar past the tabs.
    pub fn update_tab_drag(&mut self, mouse: MouseEvent)
        requires
            tab_hit_fits(*old(self), mouse.column, mouse.row),
        ensures
            match tab_hit(*old(self), mouse.column, mouse.row) {
                Some(i) => *final(self) == (App { tab_drag_target: Some(i as usize), ..*old(self) }),
                None => if mouse.row == old(self).tabs_area.y {
                    *final(self) == (App {
                        tab_drag_target: Some(
                            if old(self).tabs_list@.len() > 0 {
                                (old(self).tabs_list@.len() - 1) as usize
                            } else {
                                0usize
                            },
                        ),
                        ..*old(self)
                    })
                } else {
                    *final(self) == *old(self)
                },
            },
    {
        if let Some(index) = self.tab_index_at(mouse.column, mouse.row) {
            self.tab_drag_target = Some(index);
        } else if mouse.row == self.tabs_area.y {
            self.tab_drag_target = Some(self.tabs_list.len().saturating_sub(1));
        }
    }

    /// Drops the dragged tab: it moves to the drop target when that is
    /// another tab; otherwise the drop is a click on the dragged tab, which
    /// closes it (on its close glyph) or switches to it. Returns the tab
    /// whose file is to be shown next, if any.
    pub fn finish_tab_drag(&mut self, mouse: MouseEvent) -> (next: Option<TabItem>)
        requires
            old(self).dragging_tab is Some,
            ({
                let s = old(self).dragging_tab->0 as int;
                let len = old(self).tabs_list@.len();
                match old(self).tab_drag_target {
                    Some(t) if t != s && t < len => s < len,
                    _ => s < len ==> old(self).tabs_area.x + tabs_width(old(self).tabs_list@, s + 1) <= u16::MAX,
                }
            }),
        ensures
            ({
                let a = *old(self);
                let s = a.dragging_tab->0 as int;
                let dropped = App { dragging_tab: None, tab_drag_target: None, ..a };
                match a.tab_drag_target {
                    Some(t) if t != s && t < a.tabs_list@.len() => {
                        &&& next is None
                        &&& final(self).tabs_list@ == moved_tab(a.tabs_list@, s, t as int)
                        &&& *final(self) == (App { tabs_list: final(self).tabs_list, ..dropped })
                    },
                    _ => App::clicked_tab(dropped, s, mouse.column, *final(self), next),
                }
            }),
    {
        let start = self.dragging_tab.unwrap();
        self.dragging_tab = None;
        let target = self.tab_drag_target;
        self.tab_drag_target = None;
        match target {
            Some(t) if t != start && t < self.tabs_list.len() => {
                let tab = self.tabs_list.remove(start);
                self.tabs_list.insert(t, tab);
                None
            },
            _ => self.click_tab(start, mouse.column),
        }
    }

    /// `b` and `next` are `a` and the file to show after a click at
    /// `column` on the `index`-th tab: its close glyph closes it, anywhere
    /// else switches to it.
    pub open spec fn clicked_tab(a: App, index: int, column: u16, b: App, next: Option<TabItem>) -> bool {
        if index < 0 || index >= a.tabs_list@.len() {
            b == a && next is None
        } else {
            let tab = a.tabs_list@[index];
            let close_x = a.tabs_area.x + tabs_width(a.tabs_list@, index) + tab_width(tab) - 2;
            if column == close_x {
                App::closed_path(a, tab.path@, b, next)
            } else {
                b == a && next == Some(tab)
            }
        }
    }

    /// A click at `column` on the `index`-th tab: on its close glyph it
    /// closes the tab, anywhere else it switches to it. Returns the tab
    /// whose file is to be shown next, if any.
    pub fn click_tab(&mut self, index: usize, column: u16) -> (next: Option<TabItem>)
        requires
            index < old(self).tabs_list@.len() ==> old(self).tabs_area.x + tabs_width(old(self).tabs_list@, index + 1)
                <= u16::MAX,
        ensures
            App::clicked_tab(*old(self), index as int, column, *final(self), next),
    {
        if index >= self.tabs_list.len() {
            return None;
        }
        let tab = self.tabs_list[index].clone();
        let ghost tabs = self.tabs_list@;
        let mut sum: u16 = 0;
        let mut k: usize = 0;
        while k < index
            invariant
                tabs == self.tabs_list@,
                index < tabs.len(),
                k <= index,
                sum == tabs_width(tabs, k as int),
                self.tabs_area.x + tabs_width(tabs, index + 1) <= u16::MAX,
            decreases index - k,
        {
            proof {
                lemma_tabs_width_grows(tabs, k + 1, index + 1);
            }
            let len = byte_len(self.tabs_list[k].name.as_str());
            proof {
                lemma_u16_cut(len);
            }
            sum = sum + (len as u16) + 4;
            k += 1;
        }
        let x_start = self.tabs_area.x + sum;
        let len = byte_len(tab.name.as_str());
        proof {
            lemma_u16_cut(len);
        }
        let width: u16 = (len as u16) + 4;
        let close_glyph_x = x_start + width - 2;
        if column == close_glyph_x {
            self.close_tab(tab.path.as_str())
        } else {
            Some(tab)
        }
    }

    /// Stores the cursor and scroll of the file on screen in its tab.
    pub fn save_current_tab_state(&mut self)
        ensures
            tab_state_saved(*old(self), *final(self)),
    {
        let n = self.tabs_list.len();
        let mut i: usize = 0;
        while i < n
            invariant
                n == self.tabs_list@.len(),
                i <= n,
                *self == *old(self),
                file_index_from(self.tabs_list@, self.current_file@, 0) == file_index_from(
                    self.tabs_list@,
                    self.current_file@,
                    i as int,
                ),
            decreases n - i,
        {
            if str_eq(self.tabs_list[i].path.as_str(), self.current_file.as_str()) {
                let cursor = self.cursor;
                let scroll_y = self.scroll_y;
                let ghost before = self.tabs_list@;
                self.tabs_list[i].cursor = cursor;
                self.tabs_list[i].scroll_y = scroll_y;
                proof {
                    assert(self.tabs_list@ =~= before.update(
                        i as int,
                        TabItem { cursor: old(self).cursor, scroll_y: old(self).scroll_y, ..before[i as int] },
                    ));
                }
                return;
            }
            i += 1;
        }
    }

    /// `b` and `tab` are `a` and the tab to show after opening `path` in a
    /// tab: the tab already open for the same path (nothing changes), or a
    /// new one at the end, named after the file, with the current cursor
    /// and scroll.
    pub open spec fn pushed_file(a: App, path: Seq<char>, b: App, tab: TabItem) -> bool {
        match path_index_from(a.tabs_list@, path, 0) {
            Some(i) => b == a && tab == a.tabs_list@[i],
            None => {
                &&& tab.name@ == (match file_name_of(path) {
                    Some(n) => n,
                    None => Seq::<char>::empty(),
                })
                &&& tab.path@ == path
                &&& tab.cursor == a.cursor
                &&& tab.scroll_y == a.scroll_y
                &&& b.tabs_list@ == a.tabs_list@.push(tab)
                &&& b == (App { tabs_list: b.tabs_list, ..a })
            },
        }
    }

    /// Opens `path` in a tab: the tab already open for it, or a new one at
    /// the end (named after the file, with the current cursor and scroll).
    /// Returns the tab whose file is to be shown.
    pub fn push_file_to_tabs(&mut self, path: &str) -> (tab: TabItem)
        ensures
            App::pushed_file(*old(self), path@, *final(self), tab),
    {
        let n = self.tabs_list.len();
        let mut i: usize = 0;
        while i < n
            invariant
                n == self.tabs_list@.len(),
                i <= n,
                path_index_from(self.tabs_list@, path@, 0) == path_index_from(self.tabs_list@, path@, i as int),
            decreases n - i,
        {
            if path_eq(self.tabs_list[i].path.as_str(), path) {
                return self.tabs_list[i].clone();
            }
            i += 1;
        }
        let name = match path_file_name(path) {
            Some(name) => name,
            None => String::new(),
        };
        let tab = TabItem { name, path: path.to_string(), cursor: self.cursor, scroll_y: self.scroll_y };
        self.tabs_list.push(tab.clone());
        tab
    }

    /// `b` and `next` are `a` and the file to show after closing the tab
    /// whose path is the same path as `path` (nothing changes without one).
    pub open spec fn closed_path(a: App, path: Seq<char>, b: App, next: Option<TabItem>) -> bool {
        match path_index_from(a.tabs_list@, path, 0) {
            Some(i) => closed_tab_at(a, i, a.current_file@ == path, b, next),
            None => b == a && next is None,
        }
    }

    /// Closes the tab of `path`. When it held the file on screen, the tab
    /// that took its place (or the new last tab) is to be shown next, and
    /// with no tab left the editor is left without a file.
    pub fn close_tab(&mut self, path: &str) -> (next: Option<TabItem>)
        ensures
            App::closed_path(*old(self), path@, *final(self), next),
    {
        let n = self.tabs_list.len();
        let mut i: usize = 0;
        while i < n
            invariant
                n == self.tabs_list@.len(),
                i <= n,
                *self == *old(self),
                path_index_from(self.tabs_list@, path@, 0) == path_index_from(self.tabs_list@, path@, i as int),
            decreases n - i,
        {
            if path_eq(self.tabs_list[i].path.as_str(), path) {
                let was_current = str_eq(self.current_file.as_str(), path);
                return self.close_tab_at(i, was_current);
            }
            i += 1;
        }
        None
    }

    /// `b` and `next` are `a` and the file to show after closing the tab of
    /// the file on screen (nothing changes without one).
    pub open spec fn closed_current(a: App, b: App, next: Option<TabItem>) -> bool {
        match file_index_from(a.tabs_list@, a.current_file@, 0) {
            Some(i) => closed_tab_at(a, i, true, b, next),
            None => b == a && next is None,
        }
    }

    /// Closes the tab that holds the file on screen (nothing changes
    /// without one).
    pub fn close_current_tab(&mut self) -> (next: Option<TabItem>)
        ensures
            App::closed_current(*old(self), *final(self), next),
    {
        let n = self.tabs_list.len();
        let mut i: usize = 0;
        while i < n
            invariant
                n == self.tabs_list@.len(),
                i <= n,
                *self == *old(self),
                file_index_from(self.tabs_list@, self.current_file@, 0) == file_index_from(
                    self.tabs_list@,
                    self.current_file@,
                    i as int,
                ),
            decreases n - i,
        {
            if str_eq(self.tabs_list[i].path.as_str(), self.current_file.as_str()) {
                return self.close_tab_at(i, true);
            }
            i += 1;
        }
        None
    }

    /// Takes out the `idx`-th tab; see `closed_tab_at`.
    fn close_tab_at(&mut self, idx: usize, current: bool) -> (next: Option<TabItem>)
        requires
            idx < old(self).tabs_list@.len(),
        ensures
            closed_tab_at(*old(self), idx as int, current, *final(self), next),
    {
        self.tabs_list.remove(idx);
        if !current {
            return None;
        }
        let n = self.tabs_list.len();
        if n == 0 {
            self.clear_file();
            return None;
        }
        let next_idx = if idx < n - 1 {
            idx
        } else {
            n - 1
        };
        Some(self.tabs_list[next_idx].clone())
    }

    /// Shows `tab`'s file, whose text was read as `content` (`None` where it
    /// could not be read): the tab of the file on screen keeps its cursor
    /// and scroll first. Returns what the language server is to be told.
    pub fn switch_to_file(&mut self, tab: TabItem, content: Option<&str>) -> (n: Option<OpenNotice>)
        ensures
            switched_to(
                *old(self),
                tab,
                match content {
                    Some(t) => Some(t@),
                    None => None,
                },
                *final(self),
                n,
            ),
    {
        self.save_current_tab_state();
        let ghost s = *self;
        match content {
            Some(text) => {
                self.document = Document::from_text(text);
                self.current_file = tab.path;
                self.last_saved = self.document.lines.clone();
                proof {
                    assert(crate::app::strings_view(self.last_saved@) =~= crate::app::strings_view(self.document.lines@));
                }
                self.cursor = tab.cursor;
                self.scroll_y = tab.scroll_y;
                self.open_current_document()
            },
            None => {
                proof {
                    reveal_strlit("failed to open file");
                }
                self.show_status("failed to open file".to_owned());
                None
            },
        }
    }
}

/// Dragging a tab to another place and back leaves the tabs as they were.
pub proof fn law_drag_back_restores(tabs: Seq<TabItem>, from: int, to: int)
    requires
        0 <= from < tabs.len(),
        0 <= to < tabs.len(),
    ensures
        moved_tab(moved_tab(tabs, from, to), to, from) == tabs,
{
    let m = moved_tab(tabs, from, to);
    assert(m[to] == tabs[from]);
    assert(moved_tab(m, to, from) =~= tabs);
}

/// A drag keeps every tab: the same tabs, as many times each, come out.
pub proof fn law_drag_keeps_tabs(tabs: Seq<TabItem>, from: int, to: int)
    requires
        0 <= from < tabs.len(),
        0 <= to < tabs.len(),
    ensures
        moved_tab(tabs, from, to).to_multiset() == tabs.to_multiset(),
        moved_tab(tabs, from, to)[to] == tabs[from],
{
    let r = tabs.remove(from);
    vstd::seq_lib::to_multiset_remove(tabs, from);
    vstd::seq_lib::to_multiset_insert(r, to, tabs[from]);
    assert(tabs.to_multiset().contains(tabs[from])) by {
        tabs.to_multiset_ensures();
        assert(tabs.contains(tabs[from]));
    }
    assert(r.to_multiset().insert(tabs[from]) =~= tabs.to_multiset());
}

/// A tab found by its file lies among the tabs.
pub proof fn lemma_file_index_in_range(tabs: Seq<TabItem>, file: Seq<char>, i: int)
    ensures
        file_index_from(tabs, file, i) matches Some(k) ==> i <= k < tabs.len(),
    decreases tabs.len() - i,
{
    if 0 <= i < tabs.len() && tabs[i].path@ != file {
        lemma_file_index_in_range(tabs, file, i + 1);
    }
}

/// The width of the first `k` tabs grows with `k`.
proof fn lemma_tabs_width_grows(tabs: Seq<TabItem>, k: int, m: int)
    requires
        0 <= k <= m,
    ensures
        tabs_width(tabs, k) <= tabs_width(tabs, m),
    decreases m - k,
{
    if k < m {
        lemma_tabs_width_grows(tabs, k, m - 1);
    }
}

/// No two tabs hold the same path.
pub open spec fn tab_paths_distinct(tabs: Seq<TabItem>) -> bool {
    forall|i: int, j: int| 0 <= i < tabs.len() && 0 <= j < tabs.len() && i != j ==> tabs[i].path@ != tabs[j].path@
}

/// No tab from the `i`-th on holds a path that is the same path as `path`.
proof fn lemma_path_index_none(tabs: Seq<TabItem>, path: Seq<char>, i: int, j: int)
    requires
        0 <= i <= j < tabs.len(),
        path_index_from(tabs, path, i) is None,
    ensures
        tabs[j].path@ != path,
    decreases j - i,
{
    if i < j {
        lemma_path_index_none(tabs, path, i + 1, j);
    }
}

/// Opening a file in a tab keeps the tabs' paths distinct: a path already
/// open is not added again.
pub proof fn law_open_keeps_paths_distinct(tabs: Seq<TabItem>, path: Seq<char>, tab: TabItem)
    requires
        tab_paths_distinct(tabs),
        path_index_from(tabs, path, 0) is None,
        tab.path@ == path,
    ensures
        tab_paths_distinct(tabs.push(tab)),
{
    let t = tabs.push(tab);
    assert forall|i: int, j: int| 0 <= i < t.len() && 0 <= j < t.len() && i != j implies t[i].path@ != t[j].path@ by {
        if i == tabs.len() {
            lemma_path_index_none(tabs, path, 0, j);
        } else if j == tabs.len() {
            lemma_path_index_none(tabs, path, 0, i);
        }
    }
}

/// Closing a tab keeps the tabs' paths distinct.
pub proof fn law_close_keeps_paths_distinct(tabs: Seq<TabItem>, idx: int)
    requires
        tab_paths_distinct(tabs),
        0 <= idx < tabs.len(),
    ensures
        tab_paths_distinct(tabs.remove(idx)),
{
    let t = tabs.remove(idx);
    assert forall|i: int, j: int| 0 <= i < t.len() && 0 <= j < t.len() && i != j implies t[i].path@ != t[j].path@ by {
        let si = if i < idx { i } else { i + 1 };
        let sj = if j < idx { j } else { j + 1 };
        assert(t[i] == tabs[si]);
        assert(t[j] == tabs[sj]);
    }
}

/// Dragging a tab to another place keeps the tabs' paths distinct.
pub proof fn law_drag_keeps_paths_distinct(tabs: Seq<TabItem>, from: int, to: int)
    requires
        tab_paths_distinct(tabs),
        0 <= from < tabs.len(),
        0 <= to < tabs.len(),
    ensures
        tab_paths_distinct(moved_tab(tabs, from, to)),
{
    law_close_keeps_paths_distinct(tabs, from);
    let r = tabs.remove(from);
    let t = r.insert(to, tabs[from]);
    assert forall|k: int| 0 <= k < r.len() implies r[k].path@ != tabs[from].path@ by {
        let sk = if k < from { k } else { k + 1 };
        assert(r[k] == tabs[sk]);
    }
    assert forall|i: int, j: int| 0 <= i < t.len() && 0 <= j < t.len() && i != j implies t[i].path@ != t[j].path@ by {
        let ri = if i < to { i } else { i - 1 };
        let rj = if j < to { j } else { j - 1 };
        if i != to && j != to {
            assert(t[i] == r[ri]);
            assert(t[j] == r[rj]);
        } else if i == to {
            assert(t[j] == r[rj]);
        } else {
            assert(t[i] == r[ri]);
        }
    }
}

/// Opening a file in a tab keeps the tabs' paths distinct, and afterwards a
/// tab holds the same path.
pub proof fn law_push_file_keeps_paths_distinct(a: App, path: Seq<char>, b: App, tab: TabItem)
    requires
        tab_paths_distinct(a.tabs_list@),
        App::pushed_file(a, path, b, tab),
    ensures
        tab_paths_distinct(b.tabs_list@),
        exists|i: int| 0 <= i < b.tabs_list@.len() && same_path(#[trigger] b.tabs_list@[i].path@, path),
{
    match path_index_from(a.tabs_list@, path, 0) {
        Some(i) => {
            lemma_path_index_found(a.tabs_list@, path, 0);
            assert(same_path(b.tabs_list@[i].path@, path));
        },
        None => {
            law_open_keeps_paths_distinct(a.tabs_list@, path, tab);
            let k = a.tabs_list@.len() as int;
            assert(b.tabs_list@[k] == tab);
            assert(same_path(b.tabs_list@[k].path@, path));
        },
    }
}

/// A tab found for a path holds the same path.
proof fn lemma_path_index_found(tabs: Seq<TabItem>, path: Seq<char>, i: int)
    requires
        0 <= i,
        path_index_from(tabs, path, i) is Some,
    ensures
        i <= path_index_from(tabs, path, i)->0 < tabs.len(),
        same_path(tabs[path_index_from(tabs, path, i)->0].path@, path),
    decreases tabs.len() - i,
{
    if i < tabs.len() && !same_path(tabs[i].path@, path) {
        lemma_path_index_found(tabs, path, i + 1);
    }
}

/// Closing the tab on screen, when others are left, shows the tab that was
/// just after it, or the one just before it when it was the last; that tab
/// now stands where the closed one stood, or last.
pub proof fn law_close_shows_neighbour(a: App, idx: int, b: App, next: Option<TabItem>)
    requires
        0 <= idx < a.tabs_list@.len(),
        a.tabs_list@.len() >= 2,
        closed_tab_at(a, idx, true, b, next),
    ensures
        next == Some(if idx + 1 < a.tabs_list@.len() {
            a.tabs_list@[idx + 1]
        } else {
            a.tabs_list@[idx - 1]
        }),
        b.tabs_list@.len() == a.tabs_list@.len() - 1,
        forall|i: int| 0 <= i < idx ==> #[trigger] b.tabs_list@[i] == a.tabs_list@[i],
        forall|i: int| idx <= i < b.tabs_list@.len() ==> #[trigger] b.tabs_list@[i] == a.tabs_list@[i + 1],
        next == Some(b.tabs_list@[if idx < b.tabs_list@.len() {
            idx
        } else {
            b.tabs_list@.len() - 1
        }]),
{
    let left = a.tabs_list@.remove(idx);
    assert(left.len() == a.tabs_list@.len() - 1);
    if idx + 1 < a.tabs_list@.len() {
        assert(left[idx] == a.tabs_list@[idx + 1]);
    } else {
        assert(left[left.len() - 1] == a.tabs_list@[idx - 1]);
    }
}

/// Closing the tab of the file on screen (Ctrl+W) with other tabs open
/// shows the tab just after it, or the one just before when it was last.
pub proof fn law_close_current_shows_neighbour(a: App, b: App, next: Option<TabItem>, idx: int)
    requires
        App::closed_current(a, b, next),
        file_index_from(a.tabs_list@, a.current_file@, 0) == Some(idx),
        a.tabs_list@.len() >= 2,
    ensures
        0 <= idx < a.tabs_list@.len(),
        a.tabs_list@[idx].path@ == a.current_file@,
        next == Some(if idx + 1 < a.tabs_list@.len() {
            a.tabs_list@[idx + 1]
        } else {
            a.tabs_list@[idx - 1]
        }),
{
    lemma_file_index_in_range(a.tabs_list@, a.current_file@, 0);
    lemma_file_index_found(a.tabs_list@, a.current_file@, 0);
    law_close_shows_neighbour(a, idx, b, next);
}

/// The tab found for a file holds that file.
proof fn lemma_file_index_found(tabs: Seq<TabItem>, file: Seq<char>, i: int)
    requires
        0 <= i,
    ensures
        file_index_from(tabs, file, i) matches Some(k) ==> 0 <= k < tabs.len() && tabs[k].path@ == file,
    decreases tabs.len() - i,
{
    if i < tabs.len() && tabs[i].path@ != file {
        lemma_file_index_found(tabs, file, i + 1);
    }
}

} // verus!
