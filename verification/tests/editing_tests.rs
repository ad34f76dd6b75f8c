use ziro::app::{ActionKind, App, ChangeNotice};
use ziro::editor::cursor::Cursor;
use ziro::lsp::protocol::CompletionItem;
use ziro::management::input_management::closing_char;

fn app(lines: &[&str]) -> App {
    let mut a = App::new_state();
    a.document.lines = lines.iter().map(|s| s.to_string()).collect();
    a.last_saved = a.document.lines.clone();
    a
}

fn text(a: &App) -> Vec<&str> {
    a.document.lines.iter().map(|s| s.as_str()).collect()
}

#[test]
fn new_state_is_an_empty_unnamed_file() {
    let a = App::new_state();
    assert_eq!(a.document.lines, vec![String::new()]);
    assert_eq!(a.cursor, Cursor { x: 0, y: 0 });
    assert_eq!(a.viewport_height, 20);
    assert_eq!(a.number_col_width, 7);
    assert!(a.current_file.is_empty());
    assert!(!a.is_dirty());
    assert_eq!(a.last_action, ActionKind::Idle);
}

#[test]
fn closing_characters() {
    assert_eq!(closing_char('('), Some(')'));
    assert_eq!(closing_char('{'), Some('}'));
    assert_eq!(closing_char('['), Some(']'));
    assert_eq!(closing_char('"'), Some('"'));
    assert_eq!(closing_char('`'), Some('`'));
    assert_eq!(closing_char('\''), Some('\''));
    assert_eq!(closing_char('a'), None);
}

#[test]
fn typing_a_bracket_closes_it() {
    let mut a = app(&["f"]);
    a.cursor = Cursor { x: 1, y: 0 };
    let n = a.type_char('(');
    assert!(n.is_none());
    assert_eq!(text(&a), vec!["f()"]);
    assert_eq!(a.cursor, Cursor { x: 2, y: 0 });
    assert_eq!(a.last_action, ActionKind::Insert);
    assert_eq!(a.undo_stack.len(), 1);
}

#[test]
fn typing_within_a_word_keeps_one_undo_step() {
    let mut a = app(&[""]);
    a.type_char('a');
    a.type_char('b');
    a.type_char('c');
    assert_eq!(text(&a), vec!["abc"]);
    assert_eq!(a.undo_stack.len(), 1);
    a.type_char(' ');
    a.type_char('d');
    assert_eq!(a.undo_stack.len(), 2);
}

#[test]
fn typing_with_a_file_open_tells_the_server() {
    let mut a = app(&["ab"]);
    a.current_file = "main.rs".to_string();
    a.cursor = Cursor { x: 1, y: 0 };
    let n: ChangeNotice = a.type_char('x').expect("a notice");
    assert_eq!(n.path, "main.rs");
    assert_eq!(n.text, "axb");
    assert_eq!(n.line, 0);
    assert_eq!(n.character, 2);
    assert!(n.completion);
    let n2 = a.type_char(' ').expect("a notice");
    assert!(!n2.completion);
}

#[test]
fn tab_inserts_four_spaces() {
    let mut a = app(&["x"]);
    a.insert_tab();
    assert_eq!(text(&a), vec!["    x"]);
    assert_eq!(a.cursor, Cursor { x: 4, y: 0 });
    assert!(a.undo_stack.is_empty());
}

#[test]
fn enter_splits_the_line() {
    let mut a = app(&["abcd"]);
    a.cursor = Cursor { x: 2, y: 0 };
    a.new_line();
    assert_eq!(text(&a), vec!["ab", "cd"]);
    assert_eq!(a.cursor, Cursor { x: 0, y: 1 });
    assert_eq!(a.last_action, ActionKind::Newline);
    assert_eq!(a.undo_stack.len(), 1);
}

#[test]
fn backspace_key_joins_lines_and_runs_share_an_undo_step() {
    let mut a = app(&["ab", "cd"]);
    a.cursor = Cursor { x: 1, y: 1 };
    a.backspace_key();
    assert_eq!(text(&a), vec!["ab", "d"]);
    a.backspace_key();
    assert_eq!(text(&a), vec!["abd"]);
    assert_eq!(a.cursor, Cursor { x: 2, y: 0 });
    assert_eq!(a.undo_stack.len(), 1);
    assert_eq!(a.last_action, ActionKind::Delete);
}

#[test]
fn undo_after_an_edit_restores_it_and_redo_repeats_it() {
    let mut a = app(&["abc"]);
    a.cursor = Cursor { x: 3, y: 0 };
    a.new_line();
    assert_eq!(text(&a), vec!["abc", ""]);
    a.undo();
    assert_eq!(text(&a), vec!["abc"]);
    assert_eq!(a.cursor, Cursor { x: 3, y: 0 });
    assert_eq!(a.redo_stack.len(), 1);
    a.redo();
    assert_eq!(text(&a), vec!["abc", ""]);
    assert_eq!(a.cursor, Cursor { x: 0, y: 1 });
}

#[test]
fn undo_with_nothing_to_undo_says_so() {
    let mut a = app(&["abc"]);
    a.undo();
    assert!(a.status);
    assert_eq!(a.status_text, "nothing to undo");
    a.redo();
    assert_eq!(a.status_text, "nothing to redo");
    assert_eq!(text(&a), vec!["abc"]);
}

#[test]
fn moving_up_and_down_keeps_the_column_when_it_can() {
    let mut a = app(&["long line", "ab", "another"]);
    a.cursor = Cursor { x: 6, y: 0 };
    a.move_down();
    assert_eq!(a.cursor, Cursor { x: 2, y: 1 });
    a.move_down();
    assert_eq!(a.cursor, Cursor { x: 2, y: 2 });
    a.move_down();
    assert_eq!(a.cursor, Cursor { x: 2, y: 2 });
    a.move_up();
    a.move_up();
    assert_eq!(a.cursor, Cursor { x: 2, y: 0 });
    a.move_up();
    assert_eq!(a.cursor, Cursor { x: 2, y: 0 });
    assert_eq!(a.last_action, ActionKind::Idle);
}

#[test]
fn moving_left_and_right_wraps_lines() {
    let mut a = app(&["ab", "cd"]);
    a.cursor = Cursor { x: 0, y: 1 };
    a.move_left(false);
    assert_eq!(a.cursor, Cursor { x: 2, y: 0 });
    a.move_right(false);
    assert_eq!(a.cursor, Cursor { x: 0, y: 1 });
    a.move_right(false);
    assert_eq!(a.cursor, Cursor { x: 1, y: 1 });
}

#[test]
fn word_moves() {
    assert_eq!(App::word_left("foo bar_baz", 11), 4);
    assert_eq!(App::word_left("foo  bar", 5), 0);
    assert_eq!(App::word_left("a.b", 3), 2);
    assert_eq!(App::word_right("foo bar", 0), 3);
    assert_eq!(App::word_right("foo   bar", 3), 9);
    assert_eq!(App::word_right("x::y", 1), 3);
    let mut a = app(&["let value = 1;"]);
    a.cursor = Cursor { x: 9, y: 0 };
    a.move_left(true);
    assert_eq!(a.cursor.x, 4);
    a.move_right(true);
    assert_eq!(a.cursor.x, 9);
}

#[test]
fn delete_word_before_cursor_takes_spaces_then_the_word() {
    let mut a = app(&["let value  "]);
    a.cursor = Cursor { x: 11, y: 0 };
    a.delete_word_before_cursor();
    assert_eq!(text(&a), vec!["let "]);
    assert_eq!(a.cursor.x, 4);
    assert_eq!(a.last_action, ActionKind::Delete);
}

#[test]
fn accepting_a_function_completion_adds_parentheses() {
    let mut a = app(&["let x = pri"]);
    a.cursor = Cursor { x: 11, y: 0 };
    a.completions = vec![CompletionItem { label: "println".to_string(), kind: Some(3), insert_text: None }];
    a.completion_selected = 0;
    a.accept_completion();
    assert_eq!(text(&a), vec!["let x = println()"]);
    assert_eq!(a.cursor.x, 16);
    assert!(a.completions.is_empty());
}

#[test]
fn accepting_a_plain_completion_uses_its_insert_text() {
    let mut a = app(&["x.le"]);
    a.cursor = Cursor { x: 4, y: 0 };
    a.completions = vec![CompletionItem { label: "len".to_string(), kind: Some(5), insert_text: Some("length".to_string()) }];
    a.accept_completion();
    assert_eq!(text(&a), vec!["x.length"]);
    assert_eq!(a.cursor.x, 8);
}

#[test]
fn dirty_tracking() {
    let mut a = app(&["abc"]);
    assert!(!a.is_dirty());
    a.type_char('x');
    assert!(a.is_dirty());
}

#[test]
fn language_names_follow_the_extension() {
    let mut a = app(&[""]);
    a.current_file = "src/main.rs".to_string();
    assert_eq!(a.language_name(), "Rust");
    a.current_file = "x.tsx".to_string();
    assert_eq!(a.language_name(), "TypeScript");
    a.current_file = "notes".to_string();
    assert_eq!(a.language_name(), "Plain Text");
}

#[test]
fn scrolling_keeps_the_cursor_in_view() {
    let mut a = app(&[""]);
    a.cursor.y = 30;
    a.scroll_y = 0;
    a.update_scroll(20);
    assert_eq!(a.scroll_y, 11);
    a.cursor.y = 5;
    a.update_scroll(20);
    assert_eq!(a.scroll_y, 5);
}

#[test]
fn status_bar() {
    let mut a = app(&[""]);
    a.show_status("hello".to_string());
    assert!(a.status);
    assert_eq!(a.status_text, "hello");
    a.reset_status();
    assert!(!a.status);
    assert_eq!(a.status_text, "");
}

#[test]
fn editor_offset_follows_the_explorer() {
    let mut a = app(&[""]);
    assert_eq!(a.editor_x_offset(), 0);
    a.show_explorer = true;
    assert_eq!(a.editor_x_offset(), 40);
}

#[test]
fn whitespace_matches_std() {
    for u in 0..=0x10FFFFu32 {
        if let Some(c) = char::from_u32(u) {
            assert_eq!(ziro::text::is_whitespace(c), c.is_whitespace(), "U+{:04X}", u);
        }
    }
}
