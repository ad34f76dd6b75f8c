//! The editor's state and the small decisions made directly on it.
use vstd::prelude::*;
use std::collections::BTreeMap;
use crate::editor::cursor::Cursor;
use crate::editor::document::Document;
use crate::editor::explorer::FileEntry;
use crate::lsp::protocol::{CompletionItem, Diagnostic, Hover, SemanticToken};
use crate::management::history_management::UndoState;
use crate::management::selection_management::Selection;
use crate::management::tab_management::TabItem;
use crate::text::{lowercase_of, path_extension, path_extension_of, str_eq};
use crate::ui::colors::{theme_named, UiTheme};
use crate::ui::utils::{utf16_len, utf16_units, Rect};
use crate::editor::document::join_lines;
use crate::text::{bytes_of, substring};
use vstd::utf8::*;

verus! {

/// The kind of the last edit (`Idle` after anything that is not an edit),
/// which decides whether the next edit starts a new undo step.
#[derive(Debug, Clone, Copy, PartialEq, Eq, Structural)]
pub enum ActionKind {
    Idle,
    Insert,
    Delete,
    Newline,
}

/// The width of the explorer column.
pub const EXPLORER_WIDTH: u16 = 40;

/// Everything the editor knows about the open file, the screen and the
/// panels, as plain values.
#[derive(Debug)]
pub struct App {
    pub document: Document,
    pub theme: UiTheme,
    pub lsp_ready: bool,
    pub semantic_legend: Vec<String>,
    pub semantic_tokens: BTreeMap<usize, Vec<SemanticToken>>,
    pub diagnostics: Vec<Diagnostic>,
    pub completions: Vec<CompletionItem>,
    pub completion_selected: usize,
    pub hover: Option<Hover>,
    pub hover_position: Option<(usize, usize)>,
    pub hover_anchor: Option<(u16, u16)>,
    pub hover_pending: Option<(usize, usize, u16, u16)>,
    pub cursor: Cursor,
    pub selection: Option<Selection>,
    pub undo_stack: Vec<UndoState>,
    pub redo_stack: Vec<UndoState>,
    pub last_action: ActionKind,
    pub last_saved: Vec<String>,
    pub scroll_y: usize,
    pub viewport_height: usize,
    pub number_col_width: u16,
    pub editor_area: Rect,
    pub current_file: String,
    pub filename_input: String,
    pub status_text: String,
    pub status: bool,
    pub filename_prompt: bool,
    pub show_explorer: bool,
    pub explorer_area: Rect,
    pub explorer_entries: Vec<FileEntry>,
    pub explorer_selected: usize,
    pub explorer_cwd: String,
    pub tabs_area: Rect,
    pub tabs_list: Vec<TabItem>,
    pub dragging_tab: Option<usize>,
    pub tab_drag_target: Option<usize>,
    pub dragging_entry: Option<usize>,
    pub entry_drag_target: Option<usize>,
    pub pending_quit_after_save: bool,
    pub command_mode: bool,
    pub command_input: String,
    pub exit: bool,
}

/// What the language server is told after an edit: the file, its new text,
/// and the cursor's line and UTF-16 column, and whether to ask for
/// completions there.
#[derive(Debug)]
pub struct ChangeNotice {
    pub path: String,
    pub text: String,
    pub line: usize,
    pub character: usize,
    pub completion: bool,
}

/// What the language server is told when a file is opened: the file and
/// its text (and that its semantic tokens are wanted).
#[derive(Debug)]
pub struct OpenNotice {
    pub path: String,
    pub text: String,
}

/// Outside work that a step of the editor leaves to its caller, with the
/// call that takes the result back.
#[derive(Debug)]
pub enum Effect {
    /// Nothing to do.
    Idle,
    /// Tell the language server about an edit.
    Notify(ChangeNotice),
    /// Write the text to this file, then `finish_save`.
    Write(String),
    /// Write the text to this file named at the prompt, then
    /// `finish_prompt_save`.
    WriteAs(String),
    /// Read the clipboard, then `paste_text`.
    Paste,
    /// List the explorer's directory, then `refresh_explorer`.
    ListExplorer,
    /// Read this tab's file, then `switch_to_file`.
    Show(TabItem),
    /// List the directory of the entry at `index`, as entries of `depth`,
    /// then `expand_entry`.
    ListChildren { index: usize, path: String, depth: usize },
    /// Rename a file, then `finish_move`.
    Rename { from: String, to: String },
    /// A hover request now waits: call `poll_hover` until it has waited long
    /// enough.
    StartHoverTimer,
}

/// An optional index as an integer.
pub open spec fn opt_index(r: Option<usize>) -> Option<int> {
    match r {
        Some(i) => Some(i as int),
        None => None,
    }
}

/// The characters of each string.
pub open spec fn strings_view(v: Seq<String>) -> Seq<Seq<char>> {
    Seq::new(v.len(), |i: int| v[i]@)
}

/// The display name of the language of a file extension.
pub open spec fn language_display_name(ext: Option<Seq<char>>) -> Seq<char> {
    match ext {
        Some(e) => if e == "rs"@ {
            "Rust"@
        } else if e == "py"@ {
            "Python"@
        } else if e == "js"@ || e == "jsx"@ {
            "JavaScript"@
        } else if e == "ts"@ || e == "tsx"@ {
            "TypeScript"@
        } else if e == "go"@ {
            "Go"@
        } else if e == "c"@ || e == "h"@ {
            "C"@
        } else if e == "cpp"@ || e == "cc"@ || e == "cxx"@ || e == "hpp"@ {
            "C++"@
        } else if e == "java"@ {
            "Java"@
        } else if e == "json"@ {
            "JSON"@
        } else if e == "toml"@ {
            "TOML"@
        } else if e == "md"@ {
            "Markdown"@
        } else {
            "Plain Text"@
        },
        None => "Plain Text"@,
    }
}

/// The display name of the language of a file extension.
pub fn language_display_name_for(ext: Option<&str>) -> (name: &'static str)
    ensures
        name@ == language_display_name(match ext {
            Some(e) => Some(e@),
            None => None,
        }),
{
    match ext {
        Some(e) => if str_eq(e, "rs") {
            "Rust"
        } else if str_eq(e, "py") {
            "Python"
        } else if str_eq(e, "js") || str_eq(e, "jsx") {
            "JavaScript"
        } else if str_eq(e, "ts") || str_eq(e, "tsx") {
            "TypeScript"
        } else if str_eq(e, "go") {
            "Go"
        } else if str_eq(e, "c") || str_eq(e, "h") {
            "C"
        } else if str_eq(e, "cpp") || str_eq(e, "cc") || str_eq(e, "cxx") || str_eq(e, "hpp") {
            "C++"
        } else if str_eq(e, "java") {
            "Java"
        } else if str_eq(e, "json") {
            "JSON"
        } else if str_eq(e, "toml") {
            "TOML"
        } else if str_eq(e, "md") {
            "Markdown"
        } else {
            "Plain Text"
        },
        None => "Plain Text",
    }
}

impl App {
    /// The state of a freshly started editor: one empty line, the "matte"
    /// theme, nothing open.
    pub fn new_state() -> (a: App)
        ensures
            a.document@ == seq![Seq::<u8>::empty()],
            strings_view(a.last_saved@) == strings_view(a.document.lines@),
            a.theme == theme_named(lowercase_of("matte"@)),
            a.cursor == (Cursor { x: 0, y: 0 }),
            a.undo_stack@.len() == 0,
            a.redo_stack@.len() == 0,
            a.last_action == ActionKind::Idle,
            a.scroll_y == 0,
            a.viewport_height == 20,
            a.number_col_width == 7,
            a.current_file@.len() == 0,
            a.tabs_list@.len() == 0,
            a.explorer_entries@.len() == 0,
            a.completions@.len() == 0,
            a.diagnostics@.len() == 0,
            !a.status && !a.filename_prompt && !a.show_explorer && !a.exit && !a.pending_quit_after_save,
            !a.command_mode && a.command_input@.len() == 0,
            a.semantic_legend@.len() == 0 && a.semantic_tokens@ == Map::<usize, Vec<SemanticToken>>::empty(),
            a.completion_selected == 0,
            a.hover_position is None && a.hover_anchor is None,
            a.editor_area == (Rect { x: 0, y: 0, width: 0, height: 0 }),
            a.explorer_area == (Rect { x: 0, y: 0, width: 0, height: 0 }),
            a.tabs_area == (Rect { x: 0, y: 0, width: 0, height: 0 }),
            a.filename_input@.len() == 0 && a.status_text@.len() == 0 && a.explorer_cwd@.len() == 0,
            a.explorer_selected == 0,
            a.tab_drag_target is None && a.entry_drag_target is None,
            !a.lsp_ready,
            a.selection is None && a.hover is None && a.hover_pending is None,
            a.dragging_tab is None && a.dragging_entry is None,
    {
        let document = Document::new();
        let last_saved = document.lines.clone();
        proof {
            assert(strings_view(last_saved@) =~= strings_view(document.lines@));
        }
        App {
            document,
            theme: UiTheme::by_name("matte"),
            lsp_ready: false,
            semantic_legend: Vec::new(),
            semantic_tokens: BTreeMap::new(),
            diagnostics: Vec::new(),
            completions: Vec::new(),
            completion_selected: 0,
            hover: None,
            hover_position: None,
            hover_anchor: None,
            hover_pending: None,
            cursor: Cursor { x: 0, y: 0 },
            selection: None,
            undo_stack: Vec::new(),
            redo_stack: Vec::new(),
            last_action: ActionKind::Idle,
            last_saved,
            scroll_y: 0,
            viewport_height: 20,
            number_col_width: 7,
            editor_area: Rect::default(),
            current_file: String::new(),
            filename_input: String::new(),
            status_text: String::new(),
            status: false,
            filename_prompt: false,
            show_explorer: false,
            explorer_area: Rect::default(),
            explorer_entries: Vec::new(),
            explorer_selected: 0,
            explorer_cwd: String::new(),
            tabs_area: Rect::default(),
            tabs_list: Vec::new(),
            dragging_tab: None,
            tab_drag_target: None,
            dragging_entry: None,
            entry_drag_target: None,
            pending_quit_after_save: false,
            command_mode: false,
            command_input: String::new(),
            exit: false,
        }
    }

    /// How far right the editor starts: the explorer's width when it is shown.
    pub fn editor_x_offset(&self) -> (x: u16)
        ensures
            x == if self.show_explorer {
                EXPLORER_WIDTH
            } else {
                0
            },
    {
        if self.show_explorer {
            EXPLORER_WIDTH
        } else {
            0
        }
    }

    /// Whether the text differs from what was last saved.
    pub fn is_dirty(&self) -> (dirty: bool)
        ensures
            dirty == (strings_view(self.document.lines@) != strings_view(self.last_saved@)),
    {
        let n = self.document.lines.len();
        if n != self.last_saved.len() {
            proof {
                assert(strings_view(self.document.lines@).len() != strings_view(self.last_saved@).len());
            }
            return true;
        }
        let mut i: usize = 0;
        while i < n
            invariant
                n == self.document.lines@.len(),
                n == self.last_saved@.len(),
                i <= n,
                forall|k: int| 0 <= k < i ==> self.document.lines@[k]@ == self.last_saved@[k]@,
            decreases n - i,
        {
            if !str_eq(self.document.lines[i].as_str(), self.last_saved[i].as_str()) {
                proof {
                    assert(strings_view(self.document.lines@)[i as int] != strings_view(self.last_saved@)[i as int]);
                }
                return true;
            }
            i += 1;
        }
        proof {
            assert(strings_view(self.document.lines@) =~= strings_view(self.last_saved@));
        }
        false
    }

    /// The display name of the current file's language, by its extension.
    pub fn language_name(&self) -> (name: &'static str)
        ensures
            name@ == language_display_name(path_extension_of(self.current_file@)),
    {
        match path_extension(self.current_file.as_str()) {
            Some(ext) => language_display_name_for(Some(ext.as_str())),
            None => language_display_name_for(None),
        }
    }

    /// The first line shown once the view is scrolled up to the cursor.
    pub open spec fn scroll_top(&self) -> int {
        if self.cursor.y < self.scroll_y {
            self.cursor.y as int
        } else {
            self.scroll_y as int
        }
    }

    /// `self` scrolled just enough that the cursor's line is among the
    /// `viewport_height` lines shown.
    pub open spec fn scrolled(self, viewport_height: usize) -> App {
        let top = self.scroll_top();
        let scroll = if self.cursor.y >= top + viewport_height {
            (self.cursor.y - viewport_height + 1) as usize
        } else {
            top as usize
        };
        App { scroll_y: scroll, ..self }
    }

    /// Scrolling stays within `usize`: the top line plus the view's height,
    /// and the line that puts the cursor at the bottom of a view of no
    /// height, fit.
    pub open spec fn scroll_fits(self, viewport_height: usize) -> bool {
        &&& self.scroll_top() + viewport_height <= usize::MAX
        &&& self.cursor.y >= self.scroll_top() + viewport_height ==> self.cursor.y - viewport_height + 1 <= usize::MAX
    }

    /// Scrolls just enough that the cursor's line is among the
    /// `viewport_height` lines shown.
    pub fn update_scroll(&mut self, viewport_height: usize)
        requires
            old(self).scroll_fits(viewport_height),
        ensures
            *final(self) == old(self).scrolled(viewport_height),
    {
        if self.cursor.y < self.scroll_y {
            self.scroll_y = self.cursor.y;
        }
        if self.cursor.y >= self.scroll_y + viewport_height {
            self.scroll_y = self.cursor.y - viewport_height + 1;
        }
    }

    /// Shows `text` in the status bar.
    pub fn show_status(&mut self, text: String)
        ensures
            *final(self) == (App { status: true, status_text: text, ..*old(self) }),
    {
        self.status = true;
        self.status_text = text;
    }

    /// Clears the status bar.
    pub fn reset_status(&mut self)
        ensures
            final(self).status_text@.len() == 0,
            *final(self) == (App { status: false, status_text: final(self).status_text, ..*old(self) }),
    {
        self.status = false;
        self.status_text = String::new();
    }

    /// The cursor stands on an existing line, between two characters.
    pub open spec fn cursor_ok(&self) -> bool {
        self.document.is_position(self.cursor.x as int, self.cursor.y as int)
    }

    /// `b` is `self` with the hover popup and its pending request dropped.
    pub open spec fn without_hover(self, b: App) -> bool {
        b == (App { hover: None, hover_pending: None, hover_position: None, ..self })
    }

    /// Drops the hover popup and any pending hover request.
    pub fn clear_hover(&mut self)
        ensures
            old(self).without_hover(*final(self)),
    {
        self.hover = None;
        self.hover_pending = None;
        self.hover_position = None;
    }

    /// `b` is `a` after an edit: hover, completions and diagnostics dropped.
    pub open spec fn after_change(a: App, b: App) -> bool {
        &&& b.completions@.len() == 0
        &&& b.diagnostics@.len() == 0
        &&& b == (App {
            hover: None,
            hover_pending: None,
            hover_position: None,
            completions: b.completions,
            diagnostics: b.diagnostics,
            ..a
        })
    }

    /// What the server must be told after an edit of `a` (nothing when no
    /// file is open).
    pub open spec fn change_notice_ok(a: App, n: Option<ChangeNotice>, completion: bool) -> bool {
        if a.current_file@.len() == 0 {
            n is None
        } else {
            &&& n is Some
            &&& n->0.path@ == a.current_file@
            &&& bytes_of(n->0.text@) == join_lines(a.document@)
            &&& n->0.line == a.cursor.y
            &&& n->0.character == utf16_units(decode_utf8(a.document@[a.cursor.y as int].take(a.cursor.x as int)))
            &&& n->0.completion == completion
        }
    }

    /// What the server must be told once `a`'s file is open: nothing before
    /// the server is ready or when no file is open.
    pub open spec fn open_notice_ok(a: App, n: Option<OpenNotice>) -> bool {
        if !a.lsp_ready || a.current_file@.len() == 0 {
            n is None
        } else {
            &&& n is Some
            &&& n->0.path@ == a.current_file@
            &&& bytes_of(n->0.text@) == join_lines(a.document@)
        }
    }

    /// Says what the language server must be told about the file just
    /// opened.
    pub fn open_current_document(&self) -> (n: Option<OpenNotice>)
        ensures
            App::open_notice_ok(*self, n),
    {
        if !self.lsp_ready || self.current_file.as_str().as_bytes().len() == 0 {
            proof {
                crate::text::lemma_bytes_empty(self.current_file@);
            }
            return None;
        }
        proof {
            crate::text::lemma_bytes_empty(self.current_file@);
        }
        Some(OpenNotice { path: self.current_file.clone(), text: self.document.to_text() })
    }

    /// `b` is `a` with no file: one empty line, saved, the cursor and the
    /// view at the top.
    pub open spec fn blank_file(a: App, b: App) -> bool {
        &&& b.document@ == seq![Seq::<u8>::empty()]
        &&& strings_view(b.last_saved@) == strings_view(b.document.lines@)
        &&& b.current_file@.len() == 0
        &&& b == (App {
            document: b.document,
            current_file: b.current_file,
            last_saved: b.last_saved,
            cursor: Cursor { x: 0, y: 0 },
            scroll_y: 0,
            ..a
        })
    }

    /// Leaves the editor with no file open.
    pub fn clear_file(&mut self)
        ensures
            App::blank_file(*old(self), *final(self)),
    {
        self.document = Document::new();
        self.current_file = String::new();
        self.last_saved = self.document.lines.clone();
        proof {
            assert(strings_view(self.last_saved@) =~= strings_view(self.document.lines@));
        }
        self.cursor.x = 0;
        self.cursor.y = 0;
        self.scroll_y = 0;
    }

    /// Forgets what the last edit made stale and says what the language
    /// server must be told.
    pub fn document_changed(&mut self, completion: bool) -> (n: Option<ChangeNotice>)
        requires
            old(self).current_file@.len() > 0 ==> old(self).cursor_ok(),
        ensures
            App::after_change(*old(self), *final(self)),
            App::change_notice_ok(*old(self), n, completion),
    {
        self.hover = None;
        self.hover_pending = None;
        self.hover_position = None;
        self.completions.clear();
        self.diagnostics.clear();
        if self.current_file.as_str().as_bytes().len() == 0 {
            proof {
                crate::text::lemma_bytes_empty(self.current_file@);
            }
            return None;
        }
        proof {
            crate::text::lemma_bytes_empty(self.current_file@);
            encode_utf8_valid_utf8(self.document.lines@[self.cursor.y as int]@);
            is_char_boundary_start_end_of_seq(bytes_of(self.document.lines@[self.cursor.y as int]@));
        }
        let text = self.document.to_text();
        let prefix = substring(self.document.lines[self.cursor.y].as_str(), 0, self.cursor.x);
        proof {
            encode_utf8_decode_utf8(prefix@);
            assert(self.document@[self.cursor.y as int].subrange(0, self.cursor.x as int)
                =~= self.document@[self.cursor.y as int].take(self.cursor.x as int));
        }
        let character = utf16_len(prefix.as_str());
        Some(ChangeNotice { path: self.current_file.clone(), text, line: self.cursor.y, character, completion })
    }
}

} // verus!
