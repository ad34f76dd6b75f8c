//! The file explorer: its tree of entries, folding and unfolding
//! directories, dragging an entry onto another to move the file.
use vstd::prelude::*;
use crate::app::{App, Effect};
use crate::management::input_management::MouseEvent;
use crate::management::tab_management::{path_index_from, TabItem};
use crate::paths::{
    file_name_of, has_prefix_path, joined, parent_of, path_eq, path_file_name, path_join, path_parent,
    path_starts_with, same_path,
};
use crate::text::{bytes_of, lowercase_of, path_extension, path_extension_of, str_eq, to_lowercase};

verus! {

/// One row of the explorer: a file or directory at some depth of the tree.
#[derive(Debug)]
pub struct FileEntry {
    pub name: String,
    pub path: String,
    pub is_dir: bool,
    pub depth: usize,
    pub expanded: bool,
}

impl Clone for FileEntry {
    fn clone(&self) -> (e: FileEntry)
        ensures
            e == *self,
    {
        FileEntry {
            name: self.name.clone(),
            path: self.path.clone(),
            is_dir: self.is_dir,
            depth: self.depth,
            expanded: self.expanded,
        }
    }
}

/// Where the rows shown under the `index`-th entry end, reading from row
/// `j` on: the first later row no deeper than it, or the end.
pub open spec fn subtree_end_from(entries: Seq<FileEntry>, index: int, j: int) -> int
    decreases entries.len() - j,
{
    if j < 0 || j >= entries.len() {
        entries.len() as int
    } else if entries[j].depth <= entries[index].depth {
        j
    } else {
        subtree_end_from(entries, index, j + 1)
    }
}

/// Where the rows shown under the `index`-th entry end.
pub open spec fn subtree_end(entries: Seq<FileEntry>, index: int) -> int {
    subtree_end_from(entries, index, index + 1)
}

/// `entries` with the rows under the `index`-th entry folded away.
pub open spec fn collapsed(entries: Seq<FileEntry>, index: int) -> Seq<FileEntry> {
    entries.take(index + 1).update(index, FileEntry { expanded: false, ..entries[index] }) + entries.skip(
        subtree_end(entries, index),
    )
}

/// `entries` with `children` shown under the `index`-th entry.
pub open spec fn expanded(entries: Seq<FileEntry>, index: int, children: Seq<FileEntry>) -> Seq<FileEntry> {
    entries.take(index + 1).update(index, FileEntry { expanded: true, ..entries[index] }) + children
        + entries.skip(index + 1)
}

/// The icon shown before a file, by its extension.
pub open spec fn icon_of(ext: Option<Seq<char>>, is_dir: bool) -> Seq<char> {
    if is_dir {
        "󰉋"@
    } else {
        match ext {
            Some(e) => if e == "rs"@ {
                "󱘗"@
            } else if e == "toml"@ {
                ""@
            } else if e == "json"@ {
                ""@
            } else if e == "md"@ {
                "󰍔"@
            } else if e == "txt"@ {
                "󰈙"@
            } else if e == "png"@ || e == "jpg"@ || e == "jpeg"@ {
                "󰈟"@
            } else if e == "svg"@ {
                "󰜡"@
            } else if e == "lock"@ {
                "󰌾"@
            } else if e == "gitignore"@ {
                ""@
            } else {
                "󰈔"@
            },
            None => "󰈔"@,
        }
    }
}

/// The explorer row under the screen row `row`, if it holds an entry.
pub open spec fn entry_row(a: App, row: u16) -> Option<int> {
    if row < a.explorer_area.y || (row - a.explorer_area.y) >= a.explorer_entries@.len() {
        None
    } else {
        Some(row - a.explorer_area.y)
    }
}

/// The directory a dragged entry lands in when dropped on `target`: the
/// target itself when it is a directory, else the directory that holds it.
pub open spec fn drop_dir(target: FileEntry) -> Option<Seq<char>> {
    if target.is_dir {
        Some(target.path@)
    } else {
        parent_of(target.path@)
    }
}

/// The file to rename, and its new path, for dragging the `source`-th entry
/// onto the `target`-th (none where the entries or the names are missing,
/// or the file would stay where it is).
pub open spec fn move_plan(entries: Seq<FileEntry>, source: int, target: int) -> Option<(Seq<char>, Seq<char>)> {
    if source < 0 || source >= entries.len() || target < 0 || target >= entries.len() {
        None
    } else {
        match drop_dir(entries[target]) {
            None => None,
            Some(dir) => match file_name_of(entries[source].path@) {
                None => None,
                Some(name) => if same_path(joined(dir, name), entries[source].path@) {
                    None
                } else {
                    Some((entries[source].path@, joined(dir, name)))
                },
            },
        }
    }
}

/// Dragging the `source`-th entry onto the `target`-th moves a folder into
/// itself (the editor warns, and carries on).
pub open spec fn moves_into_itself(entries: Seq<FileEntry>, source: int, target: int) -> bool {
    &&& 0 <= source < entries.len()
    &&& 0 <= target < entries.len()
    &&& entries[source].is_dir
    &&& drop_dir(entries[target]) matches Some(dir) && has_prefix_path(dir, entries[source].path@)
}

/// `t` is the tab `s` after its file moved from `from` to `to`.
pub open spec fn tab_moved(s: TabItem, from: Seq<char>, to: Seq<char>, t: TabItem) -> bool {
    if same_path(s.path@, from) {
        t == (TabItem { path: t.path, ..s }) && t.path@ == to
    } else {
        t == s
    }
}

impl App {
    /// The icon shown before an entry.
    pub fn icon_for(path: &str, is_dir: bool) -> (icon: &'static str)
        ensures
            icon@ == icon_of(path_extension_of(path@), is_dir),
    {
        if is_dir {
            return "󰉋";
        }
        match path_extension(path) {
            Some(ext) => {
                let e = ext.as_str();
                if str_eq(e, "rs") {
                    "󱘗"
                } else if str_eq(e, "toml") {
                    ""
                } else if str_eq(e, "json") {
                    ""
                } else if str_eq(e, "md") {
                    "󰍔"
                } else if str_eq(e, "txt") {
                    "󰈙"
                } else if str_eq(e, "png") || str_eq(e, "jpg") || str_eq(e, "jpeg") {
                    "󰈟"
                } else if str_eq(e, "svg") {
                    "󰜡"
                } else if str_eq(e, "lock") {
                    "󰌾"
                } else if str_eq(e, "gitignore") {
                    ""
                } else {
                    "󰈔"
                }
            },
            None => "󰈔",
        }
    }

    /// `b` is `a` with the explorer shown when it was hidden and hidden
    /// when it was shown, and the status bar saying which.
    pub open spec fn explorer_toggled(a: App, b: App) -> bool {
        &&& b.status_text@ == (if a.show_explorer {
            "Closed Explorer"@
        } else {
            "Opened Explorer"@
        })
        &&& b == (App { show_explorer: !a.show_explorer, status: true, status_text: b.status_text, ..a })
    }

    /// Shows or hides the explorer. Returns whether its directory is to be
    /// listed (it is, on showing).
    pub fn toggle_explorer(&mut self) -> (list: bool)
        ensures
            list == !old(self).show_explorer,
            App::explorer_toggled(*old(self), *final(self)),
    {
        proof {
            reveal_strlit("Opened Explorer");
            reveal_strlit("Closed Explorer");
        }
        if !self.show_explorer {
            self.show_explorer = true;
            self.show_status("Opened Explorer".to_owned());
            true
        } else {
            self.show_explorer = false;
            self.show_status("Closed Explorer".to_owned());
            false
        }
    }

    /// Shows the listing of the explorer's directory, from its top.
    pub fn refresh_explorer(&mut self, entries: Vec<FileEntry>)
        ensures
            *final(self) == (App { explorer_entries: entries, explorer_selected: 0, ..*old(self) }),
    {
        self.explorer_entries = entries;
        self.explorer_selected = 0;
    }

    /// Selects the entry under the mouse and starts dragging it.
    pub fn start_entry_drag(&mut self, mouse: MouseEvent)
        ensures
            match entry_row(*old(self), mouse.row) {
                Some(r) => *final(self) == (App {
                    explorer_selected: r as usize,
                    dragging_entry: Some(r as usize),
                    entry_drag_target: Some(r as usize),
                    ..*old(self)
                }),
                None => *final(self) == *old(self),
            },
    {
        let area = self.explorer_area;
        if mouse.row < area.y {
            return;
        }
        let row = (mouse.row - area.y) as usize;
        if row < self.explorer_entries.len() {
            self.explorer_selected = row;
            self.dragging_entry = Some(row);
            self.entry_drag_target = Some(row);
        }
    }

    /// Moves the drop target to the entry under the mouse.
    pub fn update_entry_drag(&mut self, mouse: MouseEvent)
        ensures
            match entry_row(*old(self), mouse.row) {
                Some(r) => *final(self) == (App { entry_drag_target: Some(r as usize), ..*old(self) }),
                None => *final(self) == *old(self),
            },
    {
        let area = self.explorer_area;
        if mouse.row < area.y {
            return;
        }
        let row = (mouse.row - area.y) as usize;
        if row < self.explorer_entries.len() {
            self.entry_drag_target = Some(row);
        }
    }

    /// Opening the selected entry is defined: a folded directory there is
    /// not at the deepest depth there is.
    pub open spec fn can_open_selected(a: App) -> bool {
        a.explorer_selected < a.explorer_entries@.len() ==> ({
            let e = a.explorer_entries@[a.explorer_selected as int];
            e.is_dir && !e.expanded ==> e.depth < usize::MAX
        })
    }

    /// `b` and `effect` are `a` and what is left to do after opening the
    /// selected entry: an unfolded directory folds, a folded one is to be
    /// listed, and a file opens in a tab.
    pub open spec fn opened_selected(a: App, b: App, effect: Effect) -> bool {
        let i = a.explorer_selected as int;
        if i >= a.explorer_entries@.len() {
            b == a && effect is Idle
        } else {
            let e = a.explorer_entries@[i];
            if e.is_dir {
                if e.expanded {
                    &&& effect is Idle
                    &&& App::folded(a, i, b)
                } else {
                    &&& b == a
                    &&& effect matches Effect::ListChildren { index, path, depth } && index == i && path@ == e.path@
                        && depth == e.depth + 1
                }
            } else {
                &&& effect matches Effect::Show(tab) && match path_index_from(a.tabs_list@, e.path@, 0) {
                    Some(k) => b == a && tab == a.tabs_list@[k],
                    None => {
                        &&& tab.name@ == (match file_name_of(e.path@) {
                            Some(n) => n,
                            None => Seq::<char>::empty(),
                        })
                        &&& tab.path@ == e.path@
                        &&& tab.cursor == a.cursor
                        &&& tab.scroll_y == a.scroll_y
                        &&& b.tabs_list@ == a.tabs_list@.push(tab)
                        &&& b == (App { tabs_list: b.tabs_list, ..a })
                    },
                }
            }
        }
    }

    /// Opens the selected entry: folds an unfolded directory, asks for the
    /// listing of a folded one, and opens a file in a tab.
    pub fn open_selected_entry(&mut self) -> (effect: Effect)
        requires
            App::can_open_selected(*old(self)),
        ensures
            App::opened_selected(*old(self), *final(self), effect),
    {
        let i = self.explorer_selected;
        if i >= self.explorer_entries.len() {
            return Effect::Idle;
        }
        let entry = self.explorer_entries[i].clone();
        if entry.is_dir {
            if entry.expanded {
                self.collapse_entry(i);
                Effect::Idle
            } else {
                Effect::ListChildren { index: i, path: entry.path, depth: entry.depth + 1 }
            }
        } else {
            let tab = self.push_file_to_tabs(entry.path.as_str());
            Effect::Show(tab)
        }
    }

    /// Shows `children`, the listing of the `index`-th entry, under it.
    pub fn expand_entry(&mut self, index: usize, children: Vec<FileEntry>)
        requires
            index < old(self).explorer_entries@.len(),
        ensures
            final(self).explorer_entries@ == expanded(old(self).explorer_entries@, index as int, children@),
            *final(self) == (App { explorer_entries: final(self).explorer_entries, ..*old(self) }),
    {
        let ghost before = self.explorer_entries@;
        self.explorer_entries[index].expanded = true;
        let ghost marked = self.explorer_entries@;
        let mut children = children;
        let ghost kids = children@;
        let mut rest: Vec<FileEntry> = Vec::new();
        while self.explorer_entries.len() > index + 1
            invariant
                index < self.explorer_entries@.len(),
                marked == before.update(index as int, FileEntry { expanded: true, ..before[index as int] }),
                self.explorer_entries@ + rest@ == marked,
                *self == (App { explorer_entries: self.explorer_entries, ..*old(self) }),
            decreases self.explorer_entries@.len(),
        {
            let e = self.explorer_entries.pop().unwrap();
            rest.insert(0, e);
            proof {
                assert(self.explorer_entries@ + rest@ =~= marked);
            }
        }
        let ghost head = self.explorer_entries@;
        self.explorer_entries.append(&mut children);
        self.explorer_entries.append(&mut rest);
        proof {
            assert(head =~= marked.take(index + 1));
            assert(marked.skip(index + 1) =~= before.skip(index + 1));
            assert(self.explorer_entries@ =~= expanded(before, index as int, kids));
        }
    }

    /// `b` is `a` with the rows under the `index`-th entry folded away and
    /// the selection kept on a row.
    pub open spec fn folded(a: App, index: int, b: App) -> bool {
        let left = collapsed(a.explorer_entries@, index);
        let last = if left.len() > 0 {
            left.len() - 1
        } else {
            0
        };
        &&& b.explorer_entries@ == left
        &&& b == (App {
            explorer_entries: b.explorer_entries,
            explorer_selected: if a.explorer_selected <= last {
                a.explorer_selected
            } else {
                last as usize
            },
            ..a
        })
    }

    /// Folds away the rows under the `index`-th entry.
    pub fn collapse_entry(&mut self, index: usize)
        requires
            index < old(self).explorer_entries@.len(),
        ensures
            App::folded(*old(self), index as int, *final(self)),
    {
        let ghost before = self.explorer_entries@;
        let depth = self.explorer_entries[index].depth;
        let n = self.explorer_entries.len();
        let mut end = index + 1;
        while end < n
            invariant
                n == before.len(),
                before == self.explorer_entries@,
                index < n,
                index + 1 <= end <= n,
                depth == before[index as int].depth,
                subtree_end(before, index as int) == subtree_end_from(before, index as int, end as int),
            ensures
                index + 1 <= end <= n,
                subtree_end(before, index as int) == subtree_end_from(before, index as int, end as int),
                end < n ==> before[end as int].depth <= depth,
            decreases n - end,
        {
            if self.explorer_entries[end].depth <= depth {
                break;
            }
            end += 1;
        }
        let ghost stop = end;
        assert(subtree_end(before, index as int) == stop);
        let mut k = index + 1;
        while k < end
            invariant
                index + 1 <= k <= end,
                end <= before.len(),
                self.explorer_entries@ == before.take(index + 1) + before.skip(k as int),
                *self == (App { explorer_entries: self.explorer_entries, ..*old(self) }),
            decreases end - k,
        {
            self.explorer_entries.remove(index + 1);
            k += 1;
            proof {
                assert(self.explorer_entries@ =~= before.take(index + 1) + before.skip(k as int));
            }
        }
        self.explorer_entries[index].expanded = false;
        proof {
            assert(self.explorer_entries@ =~= collapsed(before, index as int));
        }
        let len = self.explorer_entries.len();
        let last = if len > 0 {
            len - 1
        } else {
            0
        };
        if self.explorer_selected > last {
            self.explorer_selected = last;
        }
    }

    /// Drops the dragged entry: onto another entry it asks for the file to
    /// be moved there; otherwise the drop opens the dragged entry.
    pub fn finish_entry_drag(&mut self, mouse: MouseEvent) -> (effect: Effect)
        requires
            old(self).dragging_entry is Some,
            ({
                let s = old(self).dragging_entry->0;
                match old(self).entry_drag_target {
                    Some(t) if t != s => true,
                    _ => App::can_open_selected(App { explorer_selected: s, ..*old(self) }),
                }
            }),
        ensures
            ({
                let a = *old(self);
                let s = a.dragging_entry->0;
                let dropped = App { dragging_entry: None, entry_drag_target: None, ..a };
                match a.entry_drag_target {
                    Some(t) if t != s => App::move_planned(dropped, s as int, t as int, *final(self), effect),
                    _ => App::opened_selected(App { explorer_selected: s, ..dropped }, *final(self), effect),
                }
            }),
    {
        let source = self.dragging_entry.unwrap();
        self.dragging_entry = None;
        let target = self.entry_drag_target;
        self.entry_drag_target = None;
        match target {
            Some(t) if t != source => self.move_entry(source, t),
            _ => {
                self.explorer_selected = source;
                self.open_selected_entry()
            },
        }
    }

    /// `b` and `effect` are `a` and the rename asked for after dragging the
    /// `source`-th entry onto the `target`-th (with a warning in the status
    /// bar when a folder would go into itself).
    pub open spec fn move_planned(a: App, source: int, target: int, b: App, effect: Effect) -> bool {
        &&& if moves_into_itself(a.explorer_entries@, source, target) {
            &&& b.status_text@ == "cannot move a folder into itself"@
            &&& b == (App { status: true, status_text: b.status_text, ..a })
        } else {
            b == a
        }
        &&& match move_plan(a.explorer_entries@, source, target) {
            Some((from, to)) => effect matches Effect::Rename { from: f, to: t } && f@ == from && t@ == to,
            None => effect is Idle,
        }
    }

    /// Works out the rename that moves the `source`-th entry into the
    /// directory of the `target`-th.
    pub fn move_entry(&mut self, source: usize, target: usize) -> (effect: Effect)
        ensures
            App::move_planned(*old(self), source as int, target as int, *final(self), effect),
    {
        if source >= self.explorer_entries.len() || target >= self.explorer_entries.len() {
            return Effect::Idle;
        }
        let src = self.explorer_entries[source].clone();
        let target_dir = if self.explorer_entries[target].is_dir {
            self.explorer_entries[target].path.clone()
        } else {
            match path_parent(self.explorer_entries[target].path.as_str()) {
                Some(p) => p,
                None => return Effect::Idle,
            }
        };
        if src.is_dir && path_starts_with(target_dir.as_str(), src.path.as_str()) {
            proof {
                reveal_strlit("cannot move a folder into itself");
            }
            self.show_status("cannot move a folder into itself".to_owned());
        }
        let name = match path_file_name(src.path.as_str()) {
            Some(n) => n,
            None => return Effect::Idle,
        };
        let dest = path_join(target_dir.as_str(), name.as_str());
        if path_eq(dest.as_str(), src.path.as_str()) {
            return Effect::Idle;
        }
        Effect::Rename { from: src.path, to: dest }
    }

    /// `b` is `a` after the rename of `from` to `to` came back: on success
    /// the file on screen and the tabs follow the file and the status bar
    /// says where it went (the explorer is then listed again); on failure
    /// the status bar says so.
    pub open spec fn move_finished(a: App, from: Seq<char>, to: Seq<char>, ok: bool, b: App) -> bool {
        if ok {
            &&& b.current_file@ == (if a.current_file@ == from {
                to
            } else {
                a.current_file@
            })
            &&& b.tabs_list@.len() == a.tabs_list@.len()
            &&& forall|i: int| 0 <= i < a.tabs_list@.len() ==> tab_moved(#[trigger] a.tabs_list@[i], from, to, b.tabs_list@[i])
            &&& b.status_text@ == "move to "@ + to
            &&& b == (App {
                current_file: b.current_file,
                tabs_list: b.tabs_list,
                status: true,
                status_text: b.status_text,
                ..a
            })
        } else {
            &&& b.status_text@ == "failed to move file"@
            &&& b == (App { status: true, status_text: b.status_text, ..a })
        }
    }

    /// Takes back the outcome of renaming `from` to `to`. Returns whether
    /// the explorer is to be listed again.
    pub fn finish_move(&mut self, from: &str, to: &str, ok: bool) -> (list: bool)
        ensures
            list == ok,
            App::move_finished(*old(self), from@, to@, ok, *final(self)),
    {
        if !ok {
            proof {
                reveal_strlit("failed to move file");
            }
            self.show_status("failed to move file".to_owned());
            return false;
        }
        if str_eq(self.current_file.as_str(), from) {
            self.current_file = to.to_string();
        }
        let n = self.tabs_list.len();
        let mut i: usize = 0;
        let ghost mid = *self;
        while i < n
            invariant
                n == old(self).tabs_list@.len(),
                n == self.tabs_list@.len(),
                i <= n,
                forall|k: int| 0 <= k < i ==> tab_moved(#[trigger] old(self).tabs_list@[k], from@, to@, self.tabs_list@[k]),
                forall|k: int| i <= k < n ==> self.tabs_list@[k] == old(self).tabs_list@[k],
                *self == (App { tabs_list: self.tabs_list, ..mid }),
            decreases n - i,
        {
            if path_eq(self.tabs_list[i].path.as_str(), from) {
                self.tabs_list[i].path = to.to_string();
            }
            i += 1;
        }
        proof {
            reveal_strlit("move to ");
        }
        let mut text = "move to ".to_owned();
        text.append(to);
        self.show_status(text);
        true
    }
}

/// The place of an entry in a listing: directories first, then by the
/// bytes of the lowercase name.
pub open spec fn entry_key(e: FileEntry) -> (int, Seq<u8>) {
    (if e.is_dir { 0 } else { 1 }, bytes_of(lowercase_of(e.name@)))
}

/// `a` comes before `b` byte by byte, a prefix before the longer sequence.
pub open spec fn lex_less(a: Seq<u8>, b: Seq<u8>) -> bool
    decreases a.len(),
{
    if a.len() == 0 {
        b.len() > 0
    } else if b.len() == 0 {
        false
    } else if a[0] != b[0] {
        a[0] < b[0]
    } else {
        lex_less(a.drop_first(), b.drop_first())
    }
}

/// Entry `a` is listed before entry `b`.
pub open spec fn goes_before(a: FileEntry, b: FileEntry) -> bool {
    let (ka, kb) = (entry_key(a), entry_key(b));
    ka.0 < kb.0 || (ka.0 == kb.0 && lex_less(ka.1, kb.1))
}

/// No entry of `s` is listed before one ahead of it.
pub open spec fn listed_in_order(s: Seq<FileEntry>) -> bool {
    forall|i: int, j: int| 0 <= i < j < s.len() ==> !goes_before(#[trigger] s[j], #[trigger] s[i])
}

/// The entries that take the same place in a listing as `e`.
pub open spec fn same_place(e: FileEntry) -> spec_fn(FileEntry) -> bool {
    |x: FileEntry| entry_key(x) == entry_key(e)
}

proof fn lemma_lex_transitive(a: Seq<u8>, b: Seq<u8>, c: Seq<u8>)
    requires
        lex_less(a, b),
        lex_less(b, c),
    ensures
        lex_less(a, c),
    decreases a.len(),
{
    if a.len() > 0 && b.len() > 0 && c.len() > 0 && a[0] == b[0] && b[0] == c[0] {
        lemma_lex_transitive(a.drop_first(), b.drop_first(), c.drop_first());
    }
}

proof fn lemma_lex_asymmetric(a: Seq<u8>, b: Seq<u8>)
    ensures
        !(lex_less(a, b) && lex_less(b, a)),
    decreases a.len(),
{
    if a.len() > 0 && b.len() > 0 && a[0] == b[0] {
        lemma_lex_asymmetric(a.drop_first(), b.drop_first());
    }
}

proof fn lemma_before_irreflexive(a: FileEntry)
    ensures
        !goes_before(a, a),
{
    lemma_lex_asymmetric(entry_key(a).1, entry_key(a).1);
}

proof fn lemma_before_transitive(a: FileEntry, b: FileEntry, c: FileEntry)
    requires
        goes_before(a, b),
        goes_before(b, c),
    ensures
        goes_before(a, c),
{
    if entry_key(a).0 == entry_key(b).0 && entry_key(b).0 == entry_key(c).0 {
        lemma_lex_transitive(entry_key(a).1, entry_key(b).1, entry_key(c).1);
    }
}

/// Whether `a` comes before `b` byte by byte.
fn bytes_less(a: &[u8], b: &[u8]) -> (r: bool)
    ensures
        r == lex_less(a@, b@),
{
    let mut i: usize = 0;
    proof {
        assert(a@.skip(0) =~= a@);
        assert(b@.skip(0) =~= b@);
    }
    while i < a.len() && i < b.len() && a[i] == b[i]
        invariant
            i <= a@.len(),
            i <= b@.len(),
            lex_less(a@, b@) == lex_less(a@.skip(i as int), b@.skip(i as int)),
        decreases a@.len() - i,
    {
        proof {
            assert(a@.skip(i as int).drop_first() =~= a@.skip(i + 1));
            assert(b@.skip(i as int).drop_first() =~= b@.skip(i + 1));
        }
        i += 1;
    }
    if i == a.len() {
        i < b.len()
    } else if i == b.len() {
        false
    } else {
        a[i] < b[i]
    }
}

/// Whether entry `a` is listed before entry `b`.
fn listed_before(a: &FileEntry, b: &FileEntry) -> (r: bool)
    ensures
        r == goes_before(*a, *b),
{
    if a.is_dir != b.is_dir {
        return a.is_dir;
    }
    let la = to_lowercase(a.name.as_str());
    let lb = to_lowercase(b.name.as_str());
    bytes_less(la.as_str().as_bytes(), lb.as_str().as_bytes())
}

/// `entries` in the order of a listing: directories first, then by
/// lowercase name, entries that take the same place keeping their order.
pub fn sort_entries(entries: Vec<FileEntry>) -> (sorted: Vec<FileEntry>)
    ensures
        listed_in_order(sorted@),
        forall|e: FileEntry| #[trigger] sorted@.filter(same_place(e)) == entries@.filter(same_place(e)),
{
    let ghost all = entries@;
    let n = entries.len();
    let mut rest = entries;
    let mut out: Vec<FileEntry> = Vec::new();
    while rest.len() > 0
        invariant
            all.len() == n,
            rest@.len() <= n,
            rest@ == all.skip(n - rest@.len()),
            listed_in_order(out@),
            forall|e: FileEntry| #[trigger] out@.filter(same_place(e)) == all.take(n - rest@.len()).filter(same_place(e)),
        decreases rest@.len(),
    {
        let ghost done = n - rest@.len();
        let e = rest.remove(0);
        proof {
            assert(rest@ =~= all.skip(n - rest@.len()));
            assert(all.take(done + 1) =~= all.take(done).push(e));
        }
        let m = out.len();
        let mut p: usize = 0;
        while p < m && !listed_before(&e, &out[p])
            invariant
                m == out@.len(),
                p <= m,
                forall|q: int| 0 <= q < p ==> !goes_before(e, #[trigger] out@[q]),
            decreases m - p,
        {
            p += 1;
        }
        let ghost before = out@;
        out.insert(p, e);
        proof {
            lemma_insert_keeps_order(before, p as int, e);
            assert forall|c: FileEntry| #[trigger] out@.filter(same_place(c)) == all.take(done + 1).filter(same_place(c)) by {
                lemma_insert_filter(before, p as int, e, c);
                all.take(done).lemma_filter_push(e, same_place(c));
            }
        }
    }
    proof {
        assert(all.take(n as int) =~= all);
    }
    out
}

/// Inserting `e` where the entries before it are not after it and the
/// first after it is, keeps a listing in order.
proof fn lemma_insert_keeps_order(s: Seq<FileEntry>, p: int, e: FileEntry)
    requires
        listed_in_order(s),
        0 <= p <= s.len(),
        forall|q: int| 0 <= q < p ==> !goes_before(e, #[trigger] s[q]),
        p < s.len() ==> goes_before(e, s[p]),
    ensures
        listed_in_order(s.insert(p, e)),
{
    let t = s.insert(p, e);
    assert forall|i: int, j: int| 0 <= i < j < t.len() implies !goes_before(#[trigger] t[j], #[trigger] t[i]) by {
        if j < p {
            assert(t[i] == s[i] && t[j] == s[j]);
        } else if j == p {
            assert(t[j] == e && t[i] == s[i]);
            if goes_before(e, s[i]) {
            }
        } else if i > p {
            assert(t[i] == s[i - 1] && t[j] == s[j - 1]);
        } else if i == p {
            assert(t[i] == e && t[j] == s[j - 1]);
            if goes_before(s[j - 1], e) {
                if j - 1 > p {
                    assert(!goes_before(s[j - 1], s[p]));
                }
                lemma_before_transitive(s[j - 1], e, s[p]);
                lemma_before_irreflexive(s[p]);
            }
        } else {
            assert(t[i] == s[i] && t[j] == s[j - 1]);
        }
    }
}

/// Inserting `e` at `p`, past every entry in its place, adds it at the end
/// of the entries in its place and leaves the others.
proof fn lemma_insert_filter(s: Seq<FileEntry>, p: int, e: FileEntry, c: FileEntry)
    requires
        listed_in_order(s),
        0 <= p <= s.len(),
        forall|q: int| 0 <= q < p ==> !goes_before(e, #[trigger] s[q]),
        p < s.len() ==> goes_before(e, s[p]),
    ensures
        s.insert(p, e).filter(same_place(c)) == (if same_place(c)(e) {
            s.filter(same_place(c)).push(e)
        } else {
            s.filter(same_place(c))
        }),
{
    let f = same_place(c);
    let head = s.take(p);
    let tail = s.skip(p);
    assert(s =~= head + tail);
    assert(s.insert(p, e) =~= head.push(e) + tail);
    Seq::filter_distributes_over_add(head, tail, f);
    Seq::filter_distributes_over_add(head.push(e), tail, f);
    head.lemma_filter_push(e, f);
    if f(e) {
        assert forall|k: int| 0 <= k < tail.len() implies !f(#[trigger] tail[k]) by {
            if f(tail[k]) {
                assert(tail[k] == s[p + k]);
                assert(entry_key(s[p + k]) == entry_key(e));
                lemma_before_irreflexive(s[p]);
                if k > 0 {
                    assert(!goes_before(s[p + k], s[p]));
                }
            }
        }
        tail.lemma_all_neg_filter_empty(f);
        assert(tail.filter(f) =~= Seq::<FileEntry>::empty());
        assert(head.filter(f).push(e) + tail.filter(f) =~= (head.filter(f) + tail.filter(f)).push(e));
    }
}

/// Folding a directory just unfolded, with its children all deeper than it
/// and the row after it no deeper, leaves the rows as they were before.
pub proof fn law_collapse_undoes_expand(entries: Seq<FileEntry>, index: int, children: Seq<FileEntry>)
    requires
        0 <= index < entries.len(),
        !entries[index].expanded,
        forall|k: int| 0 <= k < children.len() ==> #[trigger] children[k].depth > entries[index].depth,
        index + 1 < entries.len() ==> entries[index + 1].depth <= entries[index].depth,
    ensures
        collapsed(expanded(entries, index, children), index) == entries,
{
    let e = expanded(entries, index, children);
    let end = index + 1 + children.len();
    assert forall|j: int| index + 1 <= j <= end implies subtree_end_from(e, index, j) == end by {
        lemma_subtree_end_skips(e, index, j, end);
    }
    assert(subtree_end(e, index) == end);
    assert(collapsed(e, index) =~= entries);
}

/// Rows deeper than the `index`-th from `j` up to `end`, with `end` no
/// deeper or past the last row, end the subtree at `end`.
proof fn lemma_subtree_end_skips(e: Seq<FileEntry>, index: int, j: int, end: int)
    requires
        0 <= index < e.len(),
        index + 1 <= j <= end <= e.len(),
        forall|k: int| j <= k < end ==> #[trigger] e[k].depth > e[index].depth,
        end < e.len() ==> e[end].depth <= e[index].depth,
    ensures
        subtree_end_from(e, index, j) == end,
    decreases end - j,
{
    if j < end {
        lemma_subtree_end_skips(e, index, j + 1, end);
    }
}

/// `a` comes no later than `b` in dictionary order of bytes: it begins `b`,
/// or at the first byte where they differ, `a`'s byte is smaller.
pub open spec fn bytes_in_order(a: Seq<u8>, b: Seq<u8>) -> bool {
    ||| a.is_prefix_of(b)
    ||| exists|k: int| 0 <= k < a.len() && k < b.len() && a.take(k) == b.take(k) && #[trigger] a[k] < b[k]
}

/// A name as a listing compares it: the bytes of its lowercase form.
pub open spec fn listing_name(e: FileEntry) -> Seq<u8> {
    bytes_of(lowercase_of(e.name@))
}

/// Bytes that do not come before `a` come no earlier than it.
proof fn lemma_not_less_in_order(a: Seq<u8>, b: Seq<u8>)
    requires
        !lex_less(b, a),
    ensures
        bytes_in_order(a, b),
    decreases a.len(),
{
    if a.len() == 0 {
        assert(a.is_prefix_of(b));
    } else if b.len() == 0 {
    } else if a[0] != b[0] {
        assert(a.take(0) =~= b.take(0));
        assert(a[0] < b[0]);
    } else {
        let a1 = a.drop_first();
        let b1 = b.drop_first();
        lemma_not_less_in_order(a1, b1);
        if a1.is_prefix_of(b1) {
            assert(a =~= b.subrange(0, a.len() as int)) by {
                assert forall|k: int| 0 <= k < a.len() implies #[trigger] a[k] == b.subrange(0, a.len() as int)[k] by {
                    if k > 0 {
                        assert(a1[k - 1] == b1.subrange(0, a1.len() as int)[k - 1]);
                    }
                }
            }
        } else {
            let k = choose|k: int| 0 <= k < a1.len() && k < b1.len() && a1.take(k) == b1.take(k) && #[trigger] a1[k] < b1[k];
            assert(a.take(k + 1) =~= b.take(k + 1)) by {
                assert forall|t: int| 0 <= t < k + 1 implies #[trigger] a.take(k + 1)[t] == b.take(k + 1)[t] by {
                    if t > 0 {
                        assert(a1.take(k)[t - 1] == b1.take(k)[t - 1]);
                    }
                }
            }
            assert(a[k + 1] == a1[k] && b[k + 1] == b1[k]);
        }
    }
}

/// A listing puts every directory before every file, and entries of the
/// same kind in dictionary order of their whole lowercase names.
pub proof fn law_listing_order(s: Seq<FileEntry>, i: int, j: int)
    requires
        listed_in_order(s),
        0 <= i < j < s.len(),
    ensures
        s[j].is_dir ==> s[i].is_dir,
        s[i].is_dir == s[j].is_dir ==> bytes_in_order(listing_name(s[i]), listing_name(s[j])),
{
    assert(!goes_before(s[j], s[i]));
    if s[i].is_dir == s[j].is_dir {
        lemma_not_less_in_order(listing_name(s[i]), listing_name(s[j]));
    }
}

/// An entry occurs as often among the entries that take its place in a
/// listing as in the whole list.
proof fn lemma_count_in_place(s: Seq<FileEntry>, e: FileEntry)
    ensures
        s.filter(same_place(e)).to_multiset().count(e) == s.to_multiset().count(e),
    decreases s.len(),
{
    reveal(Seq::filter);
    if s.len() > 0 {
        let init = s.drop_last();
        lemma_count_in_place(init, e);
        assert(s =~= init.push(s.last()));
        vstd::seq_lib::to_multiset_build(init, s.last());
        let f = init.filter(same_place(e));
        if same_place(e)(s.last()) {
            vstd::seq_lib::to_multiset_build(f, s.last());
        } else {
            assert(s.last() != e);
        }
    } else {
        s.to_multiset_ensures();
        s.filter(same_place(e)).to_multiset_ensures();
        assert(!s.contains(e));
        assert(s.filter(same_place(e)) == s);
    }
}

/// A listing keeps every entry: the sorted entries are the given ones, each
/// as many times, and as many in all.
pub proof fn law_listing_keeps_entries(entries: Seq<FileEntry>, sorted: Seq<FileEntry>)
    requires
        forall|e: FileEntry| #[trigger] sorted.filter(same_place(e)) == entries.filter(same_place(e)),
    ensures
        sorted.to_multiset() == entries.to_multiset(),
        sorted.len() == entries.len(),
{
    assert forall|e: FileEntry| sorted.to_multiset().count(e) == entries.to_multiset().count(e) by {
        lemma_count_in_place(sorted, e);
        lemma_count_in_place(entries, e);
        assert(sorted.filter(same_place(e)) == entries.filter(same_place(e)));
    }
    assert(sorted.to_multiset() =~= entries.to_multiset());
    sorted.to_multiset_ensures();
    entries.to_multiset_ensures();
}

} // verus!
