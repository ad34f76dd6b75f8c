use ziro::app::{App, Effect};
use ziro::editor::cursor::Cursor;
use ziro::editor::explorer::{sort_entries, FileEntry};
use ziro::management::input_management::{MouseEvent, MouseKind};
use ziro::management::tab_management::TabItem;
use ziro::ui::utils::Rect;

fn tab(name: &str, path: &str) -> TabItem {
    TabItem { name: name.to_string(), path: path.to_string(), cursor: Cursor { x: 0, y: 0 }, scroll_y: 0 }
}

fn entry(name: &str, path: &str, is_dir: bool, depth: usize) -> FileEntry {
    FileEntry { name: name.to_string(), path: path.to_string(), is_dir, depth, expanded: false }
}

fn names(a: &App) -> Vec<&str> {
    a.tabs_list.iter().map(|t| t.name.as_str()).collect()
}

fn rows(a: &App) -> Vec<&str> {
    a.explorer_entries.iter().map(|e| e.name.as_str()).collect()
}

fn mouse(kind: MouseKind, column: u16, row: u16) -> MouseEvent {
    MouseEvent { kind, column, row }
}

fn with_tabs() -> App {
    let mut a = App::new_state();
    a.tabs_list = vec![tab("a.rs", "/p/a.rs"), tab("bb.rs", "/p/bb.rs"), tab("c.rs", "/p/c.rs")];
    a.tabs_area = Rect { x: 0, y: 1, width: 80, height: 1 };
    a
}

#[test]
fn tab_under_the_mouse() {
    let a = with_tabs();
    assert_eq!(a.tab_index_at(0, 1), Some(0));
    assert_eq!(a.tab_index_at(7, 1), Some(0));
    assert_eq!(a.tab_index_at(8, 1), Some(1));
    assert_eq!(a.tab_index_at(17, 1), Some(2));
    assert_eq!(a.tab_index_at(25, 1), None);
    assert_eq!(a.tab_index_at(3, 0), None);
}

#[test]
fn dragging_a_tab_moves_it() {
    let mut a = with_tabs();
    a.start_tab_drag(mouse(MouseKind::LeftDown, 1, 1));
    assert_eq!(a.dragging_tab, Some(0));
    a.update_tab_drag(mouse(MouseKind::LeftDrag, 18, 1));
    assert_eq!(a.tab_drag_target, Some(2));
    let next = a.finish_tab_drag(mouse(MouseKind::LeftUp, 18, 1));
    assert!(next.is_none());
    assert_eq!(names(&a), vec!["bb.rs", "c.rs", "a.rs"]);
    assert_eq!(a.dragging_tab, None);
    assert_eq!(a.tab_drag_target, None);
    a.start_tab_drag(mouse(MouseKind::LeftDown, 18, 1));
    a.update_tab_drag(mouse(MouseKind::LeftDrag, 1, 1));
    a.finish_tab_drag(mouse(MouseKind::LeftUp, 1, 1));
    assert_eq!(names(&a), vec!["a.rs", "bb.rs", "c.rs"]);
}

#[test]
fn dragging_past_the_tabs_targets_the_last() {
    let mut a = with_tabs();
    a.start_tab_drag(mouse(MouseKind::LeftDown, 1, 1));
    a.update_tab_drag(mouse(MouseKind::LeftDrag, 60, 1));
    assert_eq!(a.tab_drag_target, Some(2));
}

#[test]
fn a_click_on_a_tab_switches_to_it() {
    let mut a = with_tabs();
    a.start_tab_drag(mouse(MouseKind::LeftDown, 9, 1));
    let next = a.finish_tab_drag(mouse(MouseKind::LeftUp, 9, 1)).expect("a tab to show");
    assert_eq!(next.path, "/p/bb.rs");
    let n = a.switch_to_file(next, Some("x\ny"));
    assert!(n.is_none());
    assert_eq!(a.current_file, "/p/bb.rs");
    assert_eq!(a.document.lines, vec!["x".to_string(), "y".to_string()]);
    assert!(!a.is_dirty());
}

#[test]
fn a_click_on_the_close_glyph_closes_the_tab() {
    let mut a = with_tabs();
    a.current_file = "/p/a.rs".to_string();
    let next = a.click_tab(0, 6);
    assert_eq!(names(&a), vec!["bb.rs", "c.rs"]);
    assert_eq!(next.expect("next tab").path, "/p/bb.rs");
}

#[test]
fn closing_a_background_tab_leaves_the_file() {
    let mut a = with_tabs();
    a.current_file = "/p/a.rs".to_string();
    let next = a.close_tab("/p/c.rs");
    assert!(next.is_none());
    assert_eq!(names(&a), vec!["a.rs", "bb.rs"]);
    assert_eq!(a.current_file, "/p/a.rs");
}

#[test]
fn closing_the_last_tab_shows_the_previous_one() {
    let mut a = with_tabs();
    a.current_file = "/p/c.rs".to_string();
    let next = a.close_current_tab().expect("next tab");
    assert_eq!(next.path, "/p/bb.rs");
}

#[test]
fn closing_the_only_tab_leaves_no_file() {
    let mut a = App::new_state();
    a.tabs_list = vec![tab("a.rs", "/p/a.rs")];
    a.current_file = "/p/a.rs".to_string();
    a.document.lines = vec!["code".to_string()];
    a.cursor = Cursor { x: 2, y: 0 };
    assert!(a.close_current_tab().is_none());
    assert!(a.tabs_list.is_empty());
    assert_eq!(a.current_file, "");
    assert_eq!(a.document.lines, vec![String::new()]);
    assert_eq!(a.cursor, Cursor { x: 0, y: 0 });
}

#[test]
fn opening_a_file_twice_reuses_its_tab() {
    let mut a = App::new_state();
    a.cursor = Cursor { x: 3, y: 4 };
    let t = a.push_file_to_tabs("/home/u/notes.txt");
    assert_eq!(t.name, "notes.txt");
    assert_eq!(t.cursor, Cursor { x: 3, y: 4 });
    assert_eq!(a.tabs_list.len(), 1);
    let again = a.push_file_to_tabs("/home/u/notes.txt");
    assert_eq!(a.tabs_list.len(), 1);
    assert_eq!(again.path, "/home/u/notes.txt");
    let same = a.push_file_to_tabs("/home/u//notes.txt");
    assert_eq!(a.tabs_list.len(), 1);
    assert_eq!(same.name, "notes.txt");
}

#[test]
fn switching_stores_the_old_tab_state() {
    let mut a = with_tabs();
    a.current_file = "/p/a.rs".to_string();
    a.cursor = Cursor { x: 5, y: 9 };
    a.scroll_y = 4;
    let mut target = tab("c.rs", "/p/c.rs");
    target.cursor = Cursor { x: 1, y: 1 };
    target.scroll_y = 0;
    a.switch_to_file(target, Some("l0\nl1"));
    assert_eq!(a.tabs_list[0].cursor, Cursor { x: 5, y: 9 });
    assert_eq!(a.tabs_list[0].scroll_y, 4);
    assert_eq!(a.cursor, Cursor { x: 1, y: 1 });
    assert_eq!(a.current_file, "/p/c.rs");
}

#[test]
fn a_file_that_cannot_be_read_is_reported() {
    let mut a = with_tabs();
    a.document.lines = vec!["keep".to_string()];
    a.switch_to_file(tab("x", "/missing"), None);
    assert_eq!(a.status_text, "failed to open file");
    assert_eq!(a.document.lines, vec!["keep".to_string()]);
}

#[test]
fn opening_a_file_tells_a_ready_server() {
    let mut a = App::new_state();
    a.lsp_ready = true;
    let n = a.switch_to_file(tab("m.rs", "/p/m.rs"), Some("fn m() {}")).expect("a notice");
    assert_eq!(n.path, "/p/m.rs");
    assert_eq!(n.text, "fn m() {}");
}

#[test]
fn icons_follow_the_extension() {
    assert_eq!(App::icon_for("src", true), "󰉋");
    assert_eq!(App::icon_for("main.rs", false), "󱘗");
    assert_eq!(App::icon_for("a.jpeg", false), "󰈟");
    assert_eq!(App::icon_for("README", false), "󰈔");
}

#[test]
fn listing_order_puts_directories_first() {
    let sorted = sort_entries(vec![
        entry("zeta.txt", "/d/zeta.txt", false, 0),
        entry("Beta", "/d/Beta", true, 0),
        entry("alpha.rs", "/d/alpha.rs", false, 0),
        entry("alpha", "/d/alpha", true, 0),
        entry("Alpha.rs", "/d/Alpha.rs", false, 0),
    ]);
    let got: Vec<&str> = sorted.iter().map(|e| e.name.as_str()).collect();
    assert_eq!(got, vec!["alpha", "Beta", "alpha.rs", "Alpha.rs", "zeta.txt"]);
}

#[test]
fn folding_and_unfolding_directories() {
    let mut a = App::new_state();
    a.explorer_entries = vec![entry("src", "/p/src", true, 0), entry("Cargo.toml", "/p/Cargo.toml", false, 0)];
    a.explorer_selected = 0;
    match a.open_selected_entry() {
        Effect::ListChildren { index, path, depth } => {
            assert_eq!(index, 0);
            assert_eq!(path, "/p/src");
            assert_eq!(depth, 1);
        },
        _ => panic!("expected a listing"),
    }
    a.expand_entry(0, vec![entry("lib.rs", "/p/src/lib.rs", false, 1), entry("main.rs", "/p/src/main.rs", false, 1)]);
    assert_eq!(rows(&a), vec!["src", "lib.rs", "main.rs", "Cargo.toml"]);
    assert!(a.explorer_entries[0].expanded);
    a.explorer_selected = 0;
    assert!(matches!(a.open_selected_entry(), Effect::Idle));
    assert_eq!(rows(&a), vec!["src", "Cargo.toml"]);
    assert!(!a.explorer_entries[0].expanded);
}

#[test]
fn opening_a_file_entry_opens_a_tab() {
    let mut a = App::new_state();
    a.explorer_entries = vec![entry("main.rs", "/p/main.rs", false, 0)];
    match a.open_selected_entry() {
        Effect::Show(t) => assert_eq!(t.path, "/p/main.rs"),
        _ => panic!("expected a tab"),
    }
    assert_eq!(a.tabs_list.len(), 1);
}

#[test]
fn collapse_keeps_the_selection_on_a_row() {
    let mut a = App::new_state();
    a.explorer_entries = vec![entry("d", "/d", true, 0), entry("x", "/d/x", false, 1), entry("y", "/d/y", false, 1)];
    a.explorer_entries[0].expanded = true;
    a.explorer_selected = 2;
    a.collapse_entry(0);
    assert_eq!(rows(&a), vec!["d"]);
    assert_eq!(a.explorer_selected, 0);
}

#[test]
fn dragging_a_file_onto_a_directory_asks_for_a_rename() {
    let mut a = App::new_state();
    a.show_explorer = true;
    a.explorer_area = Rect { x: 2, y: 2, width: 37, height: 20 };
    a.explorer_entries = vec![entry("docs", "/p/docs", true, 0), entry("a.md", "/p/a.md", false, 0)];
    a.start_entry_drag(mouse(MouseKind::LeftDown, 5, 3));
    assert_eq!(a.dragging_entry, Some(1));
    assert_eq!(a.explorer_selected, 1);
    a.update_entry_drag(mouse(MouseKind::LeftDrag, 5, 2));
    assert_eq!(a.entry_drag_target, Some(0));
    match a.finish_entry_drag(mouse(MouseKind::LeftUp, 5, 2)) {
        Effect::Rename { from, to } => {
            assert_eq!(from, "/p/a.md");
            assert_eq!(to, "/p/docs/a.md");
        },
        _ => panic!("expected a rename"),
    }
}

#[test]
fn dragging_a_folder_into_itself_warns() {
    let mut a = App::new_state();
    a.explorer_entries = vec![entry("d", "/p/d", true, 0), entry("e", "/p/d/e", true, 1)];
    let e = a.move_entry(0, 1);
    assert_eq!(a.status_text, "cannot move a folder into itself");
    assert!(matches!(e, Effect::Rename { .. }));
}

#[test]
fn dropping_a_file_where_it_already_is_does_nothing() {
    let mut a = App::new_state();
    a.explorer_entries = vec![entry("a.md", "/p/a.md", false, 0), entry("b.md", "/p/b.md", false, 0)];
    assert!(matches!(a.move_entry(0, 1), Effect::Idle));
}

#[test]
fn a_finished_move_updates_the_file_and_tabs() {
    let mut a = App::new_state();
    a.current_file = "/p/a.md".to_string();
    a.tabs_list = vec![tab("a.md", "/p/a.md"), tab("b.md", "/p/b.md")];
    assert!(a.finish_move("/p/a.md", "/p/docs/a.md", true));
    assert_eq!(a.current_file, "/p/docs/a.md");
    assert_eq!(a.tabs_list[0].path, "/p/docs/a.md");
    assert_eq!(a.tabs_list[1].path, "/p/b.md");
    assert_eq!(a.status_text, "move to /p/docs/a.md");
    assert!(!a.finish_move("/p/b.md", "/q/b.md", false));
    assert_eq!(a.status_text, "failed to move file");
    assert_eq!(a.tabs_list[1].path, "/p/b.md");
}

#[test]
fn refreshing_the_explorer_selects_the_top() {
    let mut a = App::new_state();
    a.explorer_selected = 3;
    a.refresh_explorer(vec![entry("x", "/x", false, 0)]);
    assert_eq!(a.explorer_selected, 0);
    assert_eq!(rows(&a), vec!["x"]);
}

#[test]
fn mouse_wheel_moves_the_cursor() {
    let mut a = App::new_state();
    a.document.lines = (0..10).map(|i| i.to_string()).collect();
    a.handle_mouse(mouse(MouseKind::ScrollDown, 0, 0));
    assert_eq!(a.cursor.y, 3);
    a.cursor.y = 8;
    a.handle_mouse(mouse(MouseKind::ScrollDown, 0, 0));
    assert_eq!(a.cursor.y, 9);
    a.handle_mouse(mouse(MouseKind::ScrollUp, 0, 0));
    assert_eq!(a.cursor.y, 6);
}

#[test]
fn hovering_over_a_word_starts_a_request() {
    let mut a = App::new_state();
    a.document.lines = vec!["let x = value;".to_string()];
    a.current_file = "/p/m.rs".to_string();
    a.editor_area = Rect { x: 0, y: 2, width: 80, height: 20 };
    let e = a.handle_mouse(mouse(MouseKind::Moved, 7 + 9, 2));
    assert!(matches!(e, Effect::StartHoverTimer));
    assert_eq!(a.hover_pending, Some((0, 9, 16, 2)));
    assert!(a.poll_hover(false).is_none());
    let req = a.poll_hover(true).expect("a request");
    assert_eq!(req.path, "/p/m.rs");
    assert_eq!((req.line, req.character), (0, 9));
    assert_eq!(a.hover_position, Some((0, 9)));
    assert_eq!(a.hover_anchor, Some((16, 2)));
    assert_eq!(a.hover_pending, None);
}

#[test]
fn hovering_over_punctuation_drops_the_hover() {
    let mut a = App::new_state();
    a.document.lines = vec!["a = b".to_string()];
    a.editor_area = Rect { x: 0, y: 0, width: 80, height: 20 };
    a.hover_pending = Some((0, 0, 0, 0));
    let e = a.request_hover_at(7 + 2, 0);
    assert!(matches!(e, Effect::Idle));
    assert_eq!(a.hover_pending, None);
}

#[test]
fn placed_tabs_are_found_where_drawn() {
    let mut a = with_tabs();
    let area = Rect { x: 5, y: 2, width: 20, height: 1 };
    let (cells, end) = a.place_tabs(area);
    assert_eq!(a.tabs_area, area);
    assert_eq!(cells.len(), 2);
    assert_eq!((cells[0].x, cells[0].width), (5, 8));
    assert_eq!((cells[1].x, cells[1].width), (13, 9));
    assert_eq!(end, 22);
    for (k, cell) in cells.iter().enumerate() {
        for col in cell.x..cell.x + cell.width {
            assert_eq!(a.tab_index_at(col, 2), Some(k));
        }
    }
}

#[test]
fn explorer_inside_of_panel() {
    let mut a = App::new_state();
    let inner = a.place_explorer(Rect { x: 0, y: 1, width: 40, height: 28 });
    assert_eq!(inner, Rect { x: 2, y: 2, width: 37, height: 26 });
    assert_eq!(a.explorer_area, inner);
    assert_eq!(ziro::ui::layout::explorer_inner(Rect { x: 3, y: 4, width: 2, height: 1 }), Rect { x: 5, y: 5, width: 0, height: 0 });
}
