use ziro::app::{App, Effect};
use ziro::editor::cursor::Cursor;
use ziro::lsp::protocol::CompletionItem;
use ziro::management::handle_key::{ClipboardRead, KeyAction};
use ziro::management::input_management::{KeyCode, KeyEvent, KeyModifiers};

fn app(lines: &[&str]) -> App {
    let mut a = App::new_state();
    a.document.lines = lines.iter().map(|s| s.to_string()).collect();
    a.last_saved = a.document.lines.clone();
    a
}

fn key(code: KeyCode) -> KeyEvent {
    KeyEvent { code, modifiers: KeyModifiers { control: false, alt: false, shift: false } }
}

fn ctrl(c: char) -> KeyEvent {
    KeyEvent { code: KeyCode::Char(c), modifiers: KeyModifiers { control: true, alt: false, shift: false } }
}

fn text(a: &App) -> Vec<&str> {
    a.document.lines.iter().map(|s| s.as_str()).collect()
}

fn items(labels: &[&str]) -> Vec<CompletionItem> {
    labels.iter().map(|l| CompletionItem { label: l.to_string(), kind: None, insert_text: None }).collect()
}

#[test]
fn keys_are_classified() {
    let a = app(&[""]);
    assert_eq!(a.classify_key(ctrl('s')), KeyAction::Save);
    assert_eq!(a.classify_key(ctrl('z')), KeyAction::Undo);
    let redo = KeyEvent { code: KeyCode::Char('z'), modifiers: KeyModifiers { control: true, alt: false, shift: true } };
    assert_eq!(a.classify_key(redo), KeyAction::Redo);
    let quit = KeyEvent { code: KeyCode::Char('w'), modifiers: KeyModifiers { control: true, alt: true, shift: false } };
    assert_eq!(a.classify_key(quit), KeyAction::Quit);
    assert_eq!(a.classify_key(ctrl('w')), KeyAction::CloseTab);
    assert_eq!(a.classify_key(ctrl('h')), KeyAction::DeleteWord);
    assert_eq!(a.classify_key(ctrl('a')), KeyAction::Type('a'));
    assert_eq!(a.classify_key(ctrl('c')), KeyAction::Copy);
    assert_eq!(a.classify_key(key(KeyCode::Esc)), KeyAction::EnterCommand);
    let mut b = app(&[""]);
    b.completions = items(&["x"]);
    assert_eq!(b.classify_key(key(KeyCode::Tab)), KeyAction::AcceptCompletion);
    assert_eq!(b.classify_key(key(KeyCode::Left)), KeyAction::Left(false));
    b.filename_prompt = true;
    assert_eq!(b.classify_key(key(KeyCode::Left)), KeyAction::Prompt);
    assert_eq!(b.classify_key(key(KeyCode::Esc)), KeyAction::CloseCompletions);
}

#[test]
fn typing_through_handle_key() {
    let mut a = app(&[""]);
    assert!(matches!(a.handle_key(key(KeyCode::Char('h'))), Effect::Idle));
    a.handle_key(key(KeyCode::Char('i')));
    a.handle_key(key(KeyCode::Enter));
    a.handle_key(key(KeyCode::Char('[')));
    assert_eq!(text(&a), vec!["hi", "[]"]);
    assert_eq!(a.cursor, Cursor { x: 1, y: 1 });
    a.handle_key(key(KeyCode::Backspace));
    assert_eq!(text(&a), vec!["hi", "]"]);
}

#[test]
fn a_key_clears_the_status_bar() {
    let mut a = app(&[""]);
    a.show_status("old".to_string());
    a.handle_key(key(KeyCode::Right));
    assert!(!a.status);
    assert_eq!(a.status_text, "");
}

#[test]
fn save_without_a_file_opens_the_prompt() {
    let mut a = app(&["text"]);
    a.filename_input = "stale".to_string();
    let e = a.handle_key(ctrl('s'));
    assert!(matches!(e, Effect::Idle));
    assert!(a.filename_prompt);
    assert_eq!(a.filename_input, "");
    for c in "out.txt".chars() {
        a.handle_key(key(KeyCode::Char(c)));
    }
    a.handle_key(key(KeyCode::Backspace));
    a.handle_key(key(KeyCode::Char('t')));
    assert_eq!(a.filename_input, "out.txt");
    match a.handle_key(key(KeyCode::Enter)) {
        Effect::WriteAs(path) => assert_eq!(path, "out.txt"),
        _ => panic!("expected a write"),
    }
    assert_eq!(a.current_file, "out.txt");
    a.finish_prompt_save(true);
    assert!(!a.filename_prompt);
    assert_eq!(a.filename_input, "");
    assert!(!a.is_dirty());
    assert!(!a.exit);
}

#[test]
fn failed_save_from_the_prompt() {
    let mut a = app(&["text"]);
    a.filename_prompt = true;
    a.filename_input = "/no/such/dir/x".to_string();
    a.pending_quit_after_save = true;
    a.handle_key(key(KeyCode::Enter));
    a.finish_prompt_save(false);
    assert_eq!(a.status_text, "failed to save");
    assert!(!a.filename_prompt);
    assert!(!a.pending_quit_after_save);
    assert!(!a.exit);
}

#[test]
fn saving_from_the_prompt_can_quit() {
    let mut a = app(&["text"]);
    a.filename_prompt = true;
    a.filename_input = "f".to_string();
    a.pending_quit_after_save = true;
    a.handle_key(key(KeyCode::Enter));
    a.finish_prompt_save(true);
    assert!(a.exit);
}

#[test]
fn escape_cancels_the_prompt() {
    let mut a = app(&["text"]);
    a.filename_prompt = true;
    a.filename_input = "abc".to_string();
    a.handle_key(key(KeyCode::Esc));
    assert!(!a.filename_prompt);
    assert_eq!(a.filename_input, "");
    assert_eq!(a.status_text, "canceled file write");
}

#[test]
fn enter_with_an_empty_name_just_closes_the_prompt() {
    let mut a = app(&["text"]);
    a.filename_prompt = true;
    assert!(matches!(a.handle_key(key(KeyCode::Enter)), Effect::Idle));
    assert!(!a.filename_prompt);
    assert_eq!(a.current_file, "");
}

#[test]
fn save_with_a_file_asks_for_a_write() {
    let mut a = app(&["text"]);
    a.current_file = "notes.md".to_string();
    a.pending_quit_after_save = true;
    match a.handle_key(ctrl('s')) {
        Effect::Write(path) => assert_eq!(path, "notes.md"),
        _ => panic!("expected a write"),
    }
    assert!(!a.pending_quit_after_save);
    a.document.lines[0].push('!');
    assert!(a.is_dirty());
    a.finish_save(true);
    assert!(!a.is_dirty());
    assert_eq!(a.status_text, "Saved to file: notes.md");
    a.finish_save(false);
    assert_eq!(a.status_text, "file does not exist");
}

#[test]
fn quitting_with_unsaved_changes_is_refused() {
    let quit = KeyEvent { code: KeyCode::Char('w'), modifiers: KeyModifiers { control: true, alt: true, shift: false } };
    let mut a = app(&["text"]);
    a.type_char('x');
    a.handle_key(quit);
    assert!(!a.exit);
    assert_eq!(a.status_text, "file is unsaved");
    let mut b = app(&["text"]);
    b.handle_key(quit);
    assert!(b.exit);
}

#[test]
fn completion_list_keys() {
    let mut a = app(&["x"]);
    a.completions = items(&["a", "b", "c"]);
    a.handle_key(key(KeyCode::Down));
    a.handle_key(key(KeyCode::Down));
    a.handle_key(key(KeyCode::Down));
    assert_eq!(a.completion_selected, 2);
    a.handle_key(key(KeyCode::Up));
    assert_eq!(a.completion_selected, 1);
    a.handle_key(key(KeyCode::Esc));
    assert!(a.completions.is_empty());
    assert_eq!(text(&a), vec!["x"]);
}

#[test]
fn completion_up_stops_at_the_top() {
    let mut a = app(&["x"]);
    a.completions = items(&["a", "b"]);
    a.handle_key(key(KeyCode::Up));
    assert_eq!(a.completion_selected, 0);
}

#[test]
fn undo_and_redo_through_keys() {
    let mut a = app(&["ab"]);
    a.cursor = Cursor { x: 2, y: 0 };
    a.handle_key(key(KeyCode::Char('c')));
    assert_eq!(text(&a), vec!["abc"]);
    a.handle_key(ctrl('z'));
    assert_eq!(text(&a), vec!["ab"]);
    let redo = KeyEvent { code: KeyCode::Char('z'), modifiers: KeyModifiers { control: true, alt: false, shift: true } };
    a.handle_key(redo);
    assert_eq!(text(&a), vec!["abc"]);
}

#[test]
fn toggling_the_explorer_asks_for_a_listing() {
    let mut a = app(&[""]);
    assert!(matches!(a.handle_key(ctrl('e')), Effect::ListExplorer));
    assert!(a.show_explorer);
    assert_eq!(a.status_text, "Opened Explorer");
    assert!(matches!(a.handle_key(ctrl('e')), Effect::Idle));
    assert!(!a.show_explorer);
    assert_eq!(a.status_text, "Closed Explorer");
}

#[test]
fn paste_is_left_to_the_caller_then_taken_back() {
    let mut a = app(&["ad"]);
    a.cursor = Cursor { x: 1, y: 0 };
    assert!(matches!(a.handle_key(ctrl('v')), Effect::Paste));
    let n = a.finish_paste(ClipboardRead::Text("b\nc".to_string()));
    assert!(n.is_none());
    assert_eq!(text(&a), vec!["ab", "cd"]);
    assert_eq!(a.cursor, Cursor { x: 1, y: 1 });
    assert_eq!(a.undo_stack.len(), 1);
}

#[test]
fn paste_failures_show_in_the_status_bar() {
    let mut a = app(&["ad"]);
    a.finish_paste(ClipboardRead::Unavailable);
    assert_eq!(a.status_text, "clipboard unavailable");
    a.finish_paste(ClipboardRead::Failed("no text".to_string()));
    assert_eq!(a.status_text, "clipboard error: no text");
    a.finish_paste(ClipboardRead::Text(String::new()));
    assert_eq!(text(&a), vec!["ad"]);
    assert!(a.undo_stack.is_empty());
}

#[test]
fn moving_down_scrolls_the_view() {
    let lines: Vec<String> = (0..30).map(|i| format!("line {i}")).collect();
    let mut a = App::new_state();
    a.document.lines = lines;
    a.viewport_height = 5;
    for _ in 0..7 {
        a.handle_key(key(KeyCode::Down));
    }
    assert_eq!(a.cursor.y, 7);
    assert_eq!(a.scroll_y, 3);
}

#[test]
fn delete_word_through_keys() {
    let mut a = app(&["one two"]);
    a.cursor = Cursor { x: 7, y: 0 };
    let e = KeyEvent { code: KeyCode::Backspace, modifiers: KeyModifiers { control: true, alt: false, shift: false } };
    a.handle_key(e);
    assert_eq!(text(&a), vec!["one "]);
}

#[test]
fn tab_key_through_handle_key() {
    let mut a = app(&["x"]);
    a.handle_key(key(KeyCode::Tab));
    assert_eq!(text(&a), vec!["    x"]);
}

#[test]
fn undo_reverts_a_paste() {
    let mut a = app(&["ad"]);
    a.cursor = Cursor { x: 1, y: 0 };
    a.handle_key(ctrl('v'));
    a.finish_paste(ClipboardRead::Text("x\r\ny".to_string()));
    assert_eq!(text(&a), vec!["ax", "yd"]);
    a.handle_key(ctrl('z'));
    assert_eq!(text(&a), vec!["ad"]);
    assert_eq!(a.cursor, Cursor { x: 1, y: 0 });
}

#[test]
fn undo_reverts_a_line_break() {
    let mut a = app(&["abc"]);
    a.cursor = Cursor { x: 1, y: 0 };
    a.handle_key(key(KeyCode::Enter));
    a.handle_key(ctrl('z'));
    assert_eq!(text(&a), vec!["abc"]);
    assert_eq!(a.cursor, Cursor { x: 1, y: 0 });
}

#[test]
fn closing_the_tab_on_screen_with_a_key() {
    let mut a = app(&["code"]);
    a.push_file_to_tabs("/p/one.rs");
    a.push_file_to_tabs("/p/two.rs");
    a.current_file = "/p/two.rs".to_string();
    match a.handle_key(ctrl('w')) {
        Effect::Show(tab) => assert_eq!(tab.path, "/p/one.rs"),
        _ => panic!("expected a tab to show"),
    }
    assert_eq!(a.tabs_list.len(), 1);
}

#[test]
fn edits_of_an_open_file_are_passed_on() {
    let mut a = app(&["fn"]);
    a.current_file = "/p/m.rs".to_string();
    a.cursor = Cursor { x: 2, y: 0 };
    match a.handle_key(key(KeyCode::Char('x'))) {
        Effect::Notify(n) => {
            assert_eq!(n.path, "/p/m.rs");
            assert_eq!(n.text, "fnx");
            assert_eq!((n.line, n.character), (0, 3));
            assert!(n.completion);
        },
        _ => panic!("expected a notice"),
    }
    match a.handle_key(key(KeyCode::Enter)) {
        Effect::Notify(n) => {
            assert_eq!(n.text, "fnx\n");
            assert_eq!((n.line, n.character), (1, 0));
            assert!(!n.completion);
        },
        _ => panic!("expected a notice"),
    }
}

fn command(a: &mut App, text: &str) -> Effect {
    assert!(matches!(a.handle_key(key(KeyCode::Esc)), Effect::Idle));
    for c in text.chars() {
        assert!(matches!(a.handle_key(key(KeyCode::Char(c))), Effect::Idle));
    }
    a.handle_key(key(KeyCode::Enter))
}

#[test]
fn command_w_saves_without_editing() {
    let mut a = app(&["hello"]);
    a.current_file = "notes.txt".to_string();
    a.document.lines[0].push('!');
    let effect = command(&mut a, ":w");
    assert!(matches!(effect, Effect::Write(p) if p == "notes.txt"));
    assert_eq!(text(&a), vec!["hello!"]);
    assert!(!a.command_mode);
    a.finish_save(true);
    assert!(!a.is_dirty());
    assert!(!a.exit);
}

#[test]
fn command_q_refused_while_unsaved() {
    let mut a = app(&["hello"]);
    a.document.lines[0].push('!');
    assert!(matches!(command(&mut a, ":q"), Effect::Idle));
    assert!(!a.exit);
    assert_eq!(a.status_text, "file is unsaved");
    assert_eq!(text(&a), vec!["hello!"]);
    let mut b = app(&["hello"]);
    assert!(matches!(command(&mut b, ":q"), Effect::Idle));
    assert!(b.exit);
}

#[test]
fn command_wq_and_x_save_then_quit() {
    for cmd in [":wq", ":x"] {
        let mut a = app(&["hello"]);
        a.current_file = "notes.txt".to_string();
        a.document.lines[0].push('!');
        assert!(matches!(command(&mut a, cmd), Effect::Write(p) if p == "notes.txt"));
        assert!(!a.exit);
        a.finish_save(true);
        assert!(a.exit);
        assert!(!a.is_dirty());
    }
    let mut failed = app(&["hello"]);
    failed.current_file = "notes.txt".to_string();
    command(&mut failed, ":wq");
    failed.finish_save(false);
    assert!(!failed.exit);
}

#[test]
fn command_wq_without_file_asks_for_name() {
    let mut a = app(&["hello"]);
    assert!(matches!(command(&mut a, ":wq"), Effect::Idle));
    assert!(a.filename_prompt);
    for c in "out.txt".chars() {
        a.handle_key(key(KeyCode::Char(c)));
    }
    assert!(matches!(a.handle_key(key(KeyCode::Enter)), Effect::WriteAs(p) if p == "out.txt"));
    a.finish_prompt_save(true);
    assert!(a.exit);
}

#[test]
fn command_line_editing_and_escape() {
    let mut a = app(&["x"]);
    a.handle_key(key(KeyCode::Esc));
    assert!(a.command_mode);
    a.handle_key(key(KeyCode::Char(':')));
    a.handle_key(key(KeyCode::Char('q')));
    a.handle_key(key(KeyCode::Backspace));
    assert_eq!(a.command_input, ":");
    a.handle_key(key(KeyCode::Esc));
    assert!(!a.command_mode);
    assert!(a.command_input.is_empty());
    assert!(!a.exit);
    assert!(matches!(command(&mut a, ":nope"), Effect::Idle));
    assert_eq!(a.status_text, "unknown command: nope");
    assert_eq!(text(&a), vec!["x"]);
}
