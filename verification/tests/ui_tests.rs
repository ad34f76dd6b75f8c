use ziro::app::App;
use ziro::editor::cursor::Cursor;
use ziro::editor::explorer::FileEntry;
use ziro::lsp::protocol::{CompletionItem, Diagnostic, Hover, HoverContent, Position, Range, SemanticToken};
use ziro::management::selection_management::Selection;
use ziro::management::tab_management::TabItem;
use ziro::mode::Mode;
use ziro::ui::colors::{Color, UiTheme};
use ziro::ui::layout::{line_number_label, prompt_input_rect, tab_label, RowLook, TabLook};
use ziro::ui::overlays::{hover_popup, token_color};
use ziro::ui::screen::ScreenLayout;
use ziro::ui::context_menu::{ContextMenu, ContextOption, MenuOperation};
use ziro::ui::utils::{centered_rect, completion_icon, hover_text, len_utf16, utf16_column, utf16_len, Rect};

fn diag(line: u32, from: u32, to: u32, severity: Option<u32>, message: &str) -> Diagnostic {
    Diagnostic {
        range: Range { start: Position { line, character: from }, end: Position { line, character: to } },
        severity,
        message: message.to_string(),
    }
}

#[test]
fn default_mode_is_normal() {
    assert_eq!(Mode::default(), Mode::Normal);
}

#[test]
fn centred_rectangles() {
    let area = Rect { x: 0, y: 0, width: 100, height: 30 };
    assert_eq!(centered_rect(40, 5, area), Rect { x: 30, y: 12, width: 40, height: 5 });
    let small = Rect { x: 0, y: 0, width: 20, height: 3 };
    assert_eq!(centered_rect(40, 5, small), Rect { x: 0, y: 0, width: 20, height: 3 });
    assert_eq!(prompt_input_rect(area), Rect { x: 31, y: 14, width: 38, height: 1 });
}

#[test]
fn utf16_measures() {
    assert_eq!(len_utf16('a'), 1);
    assert_eq!(len_utf16('😀'), 2);
    assert_eq!(utf16_len("a😀b"), 4);
    assert_eq!(utf16_column("a😀b", 0), 0);
    assert_eq!(utf16_column("a😀b", 1), 1);
    assert_eq!(utf16_column("a😀b", 2), 2);
    assert_eq!(utf16_column("a😀b", 3), 2);
    assert_eq!(utf16_column("a😀b", 9), 3);
}

#[test]
fn completion_icons() {
    assert_eq!(completion_icon(Some(3)), "ƒ");
    assert_eq!(completion_icon(Some(7)), "◇");
    assert_eq!(completion_icon(Some(99)), "·");
    assert_eq!(completion_icon(None), "·");
}

#[test]
fn hover_texts() {
    let list = HoverContent::List(vec![
        HoverContent::Text("a".to_string()),
        HoverContent::Object(Some("b".to_string())),
        HoverContent::Other,
    ]);
    assert_eq!(hover_text(&list), "a\nb\n");
    assert_eq!(hover_text(&HoverContent::Object(None)), "");
}

#[test]
fn themes_by_name() {
    assert_eq!(UiTheme::by_name("MATTE").bg_editor, Color::Rgb(18, 18, 18));
    assert_eq!(UiTheme::by_name("zed").bg_editor, Color::Rgb(40, 44, 52));
    assert_eq!(UiTheme::by_name("unknown").bg_editor, Color::Rgb(30, 30, 30));
}

#[test]
fn diagnostic_marks() {
    let mut a = App::new_state();
    a.document.lines = vec!["let x = 1;".to_string(), "ab".to_string()];
    let m = a.diagnostic_mark(&diag(0, 4, 5, Some(2), "unused"), 10, 80).expect("shown");
    assert_eq!((m.row, m.start, m.end, m.caret, m.warning), (0, 4, 5, None, true));
    let past = a.diagnostic_mark(&diag(1, 5, 5, Some(1), "missing"), 10, 80).expect("shown");
    assert_eq!((past.start, past.end, past.caret, past.warning), (2, 2, Some(2), false));
    a.scroll_y = 1;
    assert!(a.diagnostic_mark(&diag(0, 0, 1, None, "x"), 10, 80).is_none());
}

#[test]
fn token_colours_and_marks() {
    assert_eq!(token_color("struct"), Some(Color::Rgb(86, 182, 194)));
    assert_eq!(token_color("method"), Some(Color::Rgb(97, 175, 239)));
    assert_eq!(token_color("keyword"), None);
    let mut a = App::new_state();
    a.document.lines = vec!["fn main() {}".to_string()];
    let t = SemanticToken { start: 3, length: 4, token_type: "function".to_string(), modifiers: 0 };
    let m = a.token_mark(0, &t, 10).expect("coloured");
    assert_eq!((m.row, m.start, m.end, m.color), (0, 3, 7, Color::Rgb(97, 175, 239)));
    assert!(a.token_mark(5, &t, 10).is_none());
}

#[test]
fn hover_message_prefers_the_reply_then_diagnostics() {
    let mut a = App::new_state();
    a.diagnostics = vec![diag(0, 0, 2, None, "first"), diag(1, 2, 8, None, "second")];
    a.hover_position = Some((1, 4));
    assert_eq!(a.hover_message(), "second");
    a.hover_position = Some((3, 0));
    assert_eq!(a.hover_message(), "");
    a.hover = Some(Hover { contents: HoverContent::Text("docs".to_string()) });
    assert_eq!(a.hover_message(), "docs");
}

#[test]
fn completion_list_placement() {
    let mut a = App::new_state();
    a.completions = (0..10).map(|i| CompletionItem { label: format!("item{i}"), kind: None, insert_text: None }).collect();
    a.completion_selected = 9;
    a.cursor = Cursor { x: 78, y: 2 };
    let area = Rect { x: 7, y: 1, width: 80, height: 10 };
    let p = a.completion_popup(area);
    assert_eq!(p.page, 8);
    assert_eq!(p.count, 2);
    assert_eq!(p.area, Rect { x: 78, y: 4, width: 9, height: 2 });
}

#[test]
fn hover_popup_placement() {
    let area = Rect { x: 0, y: 0, width: 100, height: 20 };
    let r = hover_popup("hello", Some((10, 5)), area).expect("placed");
    assert_eq!(r, Rect { x: 11, y: 6, width: 60, height: 1 });
    let left = hover_popup("line one\nline two", Some((90, 19)), area).expect("placed");
    assert_eq!(left, Rect { x: 30, y: 17, width: 60, height: 2 });
    assert!(hover_popup("", Some((10, 5)), area).is_none());
    let long: String = "x".repeat(500);
    let tall = hover_popup(&long, Some((10, 0)), area).expect("placed");
    assert_eq!(tall.height, 6);
}

#[test]
fn tab_bar_cells() {
    let mut a = App::new_state();
    a.tabs_list = vec![
        TabItem { name: "a.rs".to_string(), path: "/a.rs".to_string(), cursor: Cursor { x: 0, y: 0 }, scroll_y: 0 },
        TabItem { name: "b.rs".to_string(), path: "/b.rs".to_string(), cursor: Cursor { x: 0, y: 0 }, scroll_y: 0 },
        TabItem { name: "c.rs".to_string(), path: "/c.rs".to_string(), cursor: Cursor { x: 0, y: 0 }, scroll_y: 0 },
    ];
    a.current_file = "/b.rs".to_string();
    let (cells, end) = a.tab_cells(Rect { x: 2, y: 0, width: 20, height: 1 });
    assert_eq!(cells.len(), 2);
    assert_eq!((cells[0].x, cells[0].width, cells[0].look), (2, 8, TabLook::Inactive));
    assert_eq!((cells[1].x, cells[1].width, cells[1].look), (10, 8, TabLook::Active));
    assert_eq!(end, 18);
    a.dragging_tab = Some(1);
    a.tab_drag_target = Some(0);
    let (cells, _) = a.tab_cells(Rect { x: 0, y: 0, width: 80, height: 1 });
    assert_eq!(cells.len(), 3);
    assert_eq!(cells[0].look, TabLook::DragTarget);
}

#[test]
fn explorer_rows() {
    let mut a = App::new_state();
    a.explorer_entries = vec![
        FileEntry { name: "src".to_string(), path: "/p/src".to_string(), is_dir: true, depth: 0, expanded: true },
        FileEntry { name: "lib.rs".to_string(), path: "/p/src/lib.rs".to_string(), is_dir: false, depth: 1, expanded: false },
    ];
    a.explorer_selected = 1;
    let (label, look) = a.explorer_row(0);
    assert_eq!(label, "v 󰉋 src");
    assert_eq!(look, RowLook::Dir);
    let (label, look) = a.explorer_row(1);
    assert_eq!(label, "    󱘗 lib.rs");
    assert_eq!(look, RowLook::Selected);
}

#[test]
fn selection_spans_per_line() {
    let mut a = App::new_state();
    a.document.lines = vec!["abcdef".to_string(), "xyz".to_string(), "pq".to_string()];
    a.selection = Some(Selection { anchor: (1, 2) });
    a.cursor = Cursor { x: 4, y: 0 };
    assert_eq!(a.selection_span(0), Some((4, 6)));
    assert_eq!(a.selection_span(1), Some((0, 3)));
    assert_eq!(a.selection_span(2), Some((0, 1)));
    assert_eq!(a.selection_span(3), None);
    a.selection = None;
    assert_eq!(a.selection_span(0), None);
}

#[test]
fn selection_highlight_splits_spans() {
    let spans = vec![("let ".to_string(), 1u8), ("value".to_string(), 2u8), (" = 1".to_string(), 3u8)];
    let out = App::apply_selection_highlight(spans, 2, 6);
    let got: Vec<(&str, u8, bool)> = out.iter().map(|(t, s, sel)| (t.as_str(), *s, *sel)).collect();
    assert_eq!(got, vec![("le", 1, false), ("t ", 1, true), ("va", 2, true), ("lue", 2, false), (" = 1", 3, false)]);
    let none = App::apply_selection_highlight(vec![("ab".to_string(), 0u8)], 3, 3);
    assert_eq!(none, vec![("ab".to_string(), 0u8, false)]);
}

#[test]
fn terminal_cursor_position() {
    let mut a = App::new_state();
    a.editor_area = Rect { x: 0, y: 2, width: 80, height: 20 };
    a.cursor = Cursor { x: 3, y: 5 };
    a.scroll_y = 2;
    assert_eq!(a.screen_cursor(Rect { x: 0, y: 0, width: 80, height: 24 }), (10, 5));
    a.cursor.x = 200;
    assert_eq!(a.screen_cursor(Rect { x: 0, y: 0, width: 80, height: 24 }), (79, 5));
    a.filename_prompt = true;
    a.filename_input = "ab".to_string();
    assert_eq!(a.screen_cursor(Rect { x: 0, y: 0, width: 80, height: 24 }), (23, 11));
}

#[test]
fn selection_range_does_not_depend_on_which_end_is_the_anchor() {
    let forward = Selection { anchor: (2, 1) }.range((5, 3));
    let backward = Selection { anchor: (5, 3) }.range((2, 1));
    assert_eq!(forward, ((2, 1), (5, 3)));
    assert_eq!(backward, forward);
    let same_line = Selection { anchor: (7, 4) }.range((1, 4));
    assert_eq!(same_line, ((1, 4), (7, 4)));
}

fn rect(x: u16, y: u16, width: u16, height: u16) -> Rect {
    Rect { x, y, width, height }
}

#[test]
fn screen_layout_without_explorer() {
    let a = App::new_state();
    let l = a.screen_layout(rect(0, 0, 100, 30));
    assert_eq!(
        l,
        ScreenLayout {
            top_bar: rect(0, 0, 100, 1),
            status_bar: rect(0, 29, 100, 1),
            explorer: None,
            tab_bar: rect(0, 1, 100, 1),
            editor: rect(0, 2, 100, 27),
            numbers: rect(0, 2, 7, 27),
            text: rect(7, 2, 93, 27),
        }
    );
}

#[test]
fn screen_layout_with_explorer() {
    let mut a = App::new_state();
    a.show_explorer = true;
    let l = a.screen_layout(rect(0, 0, 100, 30));
    assert_eq!(l.explorer, Some(rect(0, 1, 40, 28)));
    assert_eq!(l.tab_bar, rect(40, 1, 60, 1));
    assert_eq!(l.editor, rect(40, 2, 60, 27));
    assert_eq!(l.numbers, rect(40, 2, 7, 27));
    assert_eq!(l.text, rect(47, 2, 53, 27));
}

fn menu() -> ContextMenu<u8> {
    ContextMenu::new(vec![
        ContextOption::new("Rename".to_string(), 1),
        ContextOption::new("Delete".to_string(), 2),
        ContextOption::new("New file".to_string(), 3),
    ])
}

#[test]
fn context_menu_height_counts_borders() {
    assert_eq!(menu().popup_height(), 5);
}

#[test]
fn context_menu_click_picks_row() {
    let m = menu();
    let popup = Some(rect(10, 5, 40, 5));
    assert_eq!(m.option_at(popup, 12, 6), Some(0));
    assert_eq!(m.option_at(popup, 49, 8), Some(2));
    assert_eq!(m.option[m.option_at(popup, 12, 7).unwrap()].operation, 2);
    assert_eq!(m.option_at(popup, 12, 5), Some(0));
    assert_eq!(m.option_at(popup, 12, 9), None);
    assert_eq!(m.option_at(popup, 9, 6), None);
    assert_eq!(m.option_at(popup, 50, 6), None);
    assert_eq!(m.option_at(popup, 12, 10), None);
    assert_eq!(m.option_at(None, 12, 6), None);
}

#[test]
fn title_names_the_file() {
    let mut a = App::new_state();
    a.current_file = "src/main.rs".to_string();
    assert_eq!(a.title_text(), "Ziro @ src/main.rs ");
}

#[test]
fn status_line_counts_from_one() {
    let mut a = App::new_state();
    a.current_file = "src/main.rs".to_string();
    a.cursor = Cursor { x: 4, y: 11 };
    a.status_text = "saved file".to_string();
    assert_eq!(a.status_line("ready"), " saved file  Ln 12, Col 5  Rust  LSP: ready  saved");
    a.document.lines[0].push('x');
    assert!(a.status_line("ready").ends_with("  modified"));
}

#[test]
fn tab_label_frames_name() {
    assert_eq!(tab_label("main.rs"), " main.rs x ");
    assert_eq!(tab_label(""), "  x ");
}

#[test]
fn line_numbers_right_aligned() {
    assert_eq!(line_number_label(1), "   1 ");
    assert_eq!(line_number_label(42), "  42 ");
    assert_eq!(line_number_label(9999), "9999 ");
    assert_eq!(line_number_label(123456), "123456 ");
    for n in [0usize, 7, 10, 100, 1000, 10000] {
        assert_eq!(line_number_label(n), format!("{:>4} ", n));
    }
}

#[test]
fn cursor_line_number_is_active_colour() {
    let mut a = App::new_state();
    a.cursor = Cursor { x: 0, y: 3 };
    assert_eq!(a.line_number_color(3), a.theme.fg_line_number_active);
    assert_eq!(a.line_number_color(2), a.theme.fg_line_number);
}

#[test]
fn editor_placement_sets_view() {
    let mut a = App::new_state();
    a.scroll_y = 10;
    let area = rect(7, 2, 60, 20);
    assert_eq!(a.place_editor(area, 100), (10, 20));
    assert_eq!(a.viewport_height, 20);
    assert_eq!(a.editor_area, area);
    assert_eq!(a.place_editor(area, 15), (10, 5));
    assert_eq!(a.place_editor(area, 3), (10, 0));
}

#[test]
fn gutter_rows_number_from_one() {
    let mut a = App::new_state();
    a.cursor = Cursor { x: 0, y: 11 };
    let rows = a.gutter_rows(10, 3);
    assert_eq!(rows.len(), 3);
    assert_eq!(rows[0].0, "  11 ");
    assert_eq!(rows[1], ("  12 ".to_string(), a.theme.fg_line_number_active));
    assert_eq!(rows[2].1, a.theme.fg_line_number);
}

#[test]
fn completion_rows_show_selected_page() {
    let mut a = App::new_state();
    a.completions = (0..10)
        .map(|i| CompletionItem { label: format!("item{}", i), kind: if i == 9 { Some(3) } else { None }, insert_text: None })
        .collect();
    a.completion_selected = 9;
    let rows = a.completion_rows();
    assert_eq!(rows.len(), 2);
    assert_eq!(rows[0].0, format!(" {} item8", completion_icon(None)));
    assert_eq!(rows[1].0, format!(" {} item9", completion_icon(Some(3))));
    assert_eq!((rows[0].1, rows[1].1), (false, true));
    a.completion_selected = 2;
    let rows = a.completion_rows();
    assert_eq!(rows.len(), 8);
    assert!(rows[2].1 && !rows[0].1);
}

#[test]
fn context_menu_size() {
    assert_eq!(menu().popup_size(), (40, 5));
}

struct Say(&'static str);

impl MenuOperation for Say {
    fn perform(&self, app: &mut App) {
        app.status_text = self.0.to_string();
    }
}

#[test]
fn context_menu_runs_the_clicked_option() {
    let m = ContextMenu::new(vec![
        ContextOption::new("Rename".to_string(), Say("rename")),
        ContextOption::new("Delete".to_string(), Say("delete")),
    ]);
    let popup = Some(rect(10, 5, 40, 4));
    let mut a = App::new_state();
    assert!(m.activate(&mut a, popup, 12, 7));
    assert_eq!(a.status_text, "delete");
    assert!(m.activate(&mut a, popup, 12, 5));
    assert_eq!(a.status_text, "rename");
    assert!(!m.activate(&mut a, popup, 12, 8));
    assert!(!m.activate(&mut a, None, 12, 6));
    assert_eq!(a.status_text, "rename");
}
