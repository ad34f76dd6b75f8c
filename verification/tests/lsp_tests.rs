use ziro::app::App;
use ziro::editor::cursor::Cursor;
use ziro::lsp::client::{frame_message, header_line, keeps_answer, to_decimal, parse_usize, trim, HeaderLine, LspStatus, Request, RequestTable, Route};
use ziro::lsp::messages::{str_starts_with, LspMessage};
use ziro::lsp::protocol::{CompletionItem, Diagnostic, Hover, HoverContent, Position, Range};
use ziro::lsp::registry::{args_for, candidates_for, find_root, language_for_path, pick_server, project_root, root_marker_for};

fn item(label: &str) -> CompletionItem {
    CompletionItem { label: label.to_string(), kind: None, insert_text: None }
}

fn diag(line: u32, from: u32, to: u32, message: &str) -> Diagnostic {
    Diagnostic {
        range: Range { start: Position { line, character: from }, end: Position { line, character: to } },
        severity: Some(1),
        message: message.to_string(),
    }
}

#[test]
fn requests_are_numbered_and_found_again() {
    let mut t = RequestTable::new();
    assert_eq!(t.next_id, 1);
    let a = t.issue(Request::Initialize);
    let b = t.issue(Request::Hover(3, 4));
    assert_eq!((a, b), (1, 2));
    assert_eq!(t.take_answer(Some(2)), Some(Request::Hover(3, 4)));
    assert_eq!(t.take_answer(Some(2)), None);
    assert_eq!(t.take_answer(None), None);
    assert_eq!(t.take_answer(Some(1 + (1u64 << 32))), Some(Request::Initialize));
    assert_eq!(t.next_version(), 2);
}

#[test]
fn completion_answers_need_a_result() {
    assert!(!keeps_answer(Request::Completion, false));
    assert!(keeps_answer(Request::Completion, true));
    assert!(keeps_answer(Request::SemanticTokens, false));
    assert_ne!(LspStatus::Alive, LspStatus::Offline);
}

#[test]
fn header_lines() {
    assert_eq!(header_line("\r\n"), HeaderLine::End);
    assert_eq!(header_line("Content-Length: 120\r\n"), HeaderLine::Length(120));
    assert_eq!(header_line("Content-Length:+7\r\n"), HeaderLine::Length(7));
    assert_eq!(header_line("Content-Length: lots\r\n"), HeaderLine::Length(0));
    assert_eq!(header_line("Content-Type: application/json\r\n"), HeaderLine::Other);
    assert_eq!(header_line("\n"), HeaderLine::Other);
}

#[test]
fn numbers_and_trimming() {
    assert_eq!(parse_usize("0"), Some(0));
    assert_eq!(parse_usize("+42"), Some(42));
    assert_eq!(parse_usize(""), None);
    assert_eq!(parse_usize("+"), None);
    assert_eq!(parse_usize("-1"), None);
    assert_eq!(parse_usize("1 2"), None);
    assert_eq!(parse_usize("99999999999999999999999"), None);
    assert_eq!(trim("  a b \t\r\n"), "a b");
    assert_eq!(trim("   "), "");
}

#[test]
fn completions_are_narrowed_to_the_typed_word() {
    let mut a = App::new_state();
    a.document.lines = vec!["let v = Pri".to_string()];
    a.cursor = Cursor { x: 11, y: 0 };
    a.completion_selected = 4;
    let n = a.receive(LspMessage::Completion(vec![item("print"), item("println"), item("push"), item("PRIVATE")]), "");
    assert!(n.is_none());
    let got: Vec<&str> = a.completions.iter().map(|c| c.label.as_str()).collect();
    assert_eq!(got, vec!["print", "println", "PRIVATE"]);
    assert_eq!(a.completion_selected, 0);
}

#[test]
fn completions_are_all_kept_without_a_typed_word() {
    let mut a = App::new_state();
    a.document.lines = vec!["x.".to_string()];
    a.cursor = Cursor { x: 2, y: 0 };
    a.receive(LspMessage::Completion(vec![item("len"), item("push")]), "");
    assert_eq!(a.completions.len(), 2);
}

#[test]
fn diagnostics_only_for_the_file_on_screen() {
    let mut a = App::new_state();
    a.receive(LspMessage::Diagnostics("file:///other.rs".to_string(), vec![diag(0, 0, 1, "x")]), "file:///m.rs");
    assert!(a.diagnostics.is_empty());
    a.receive(LspMessage::Diagnostics("file:///m.rs".to_string(), vec![diag(0, 0, 1, "x")]), "file:///m.rs");
    assert_eq!(a.diagnostics.len(), 1);
}

#[test]
fn hover_replies_only_for_the_position_asked() {
    let mut a = App::new_state();
    a.hover_position = Some((2, 5));
    let reply = || Some(Hover { contents: HoverContent::Text("doc".to_string()) });
    a.receive(LspMessage::Hover(2, 6, reply()), "");
    assert!(a.hover.is_none());
    a.receive(LspMessage::Hover(2, 5, reply()), "");
    assert!(a.hover.is_some());
}

#[test]
fn initialisation_opens_the_current_file() {
    let mut a = App::new_state();
    a.current_file = "/p/m.rs".to_string();
    a.document.lines = vec!["a".to_string(), "b".to_string()];
    let n = a.receive(LspMessage::Initialized(vec!["function".to_string()]), "").expect("a notice");
    assert!(a.lsp_ready);
    assert_eq!(a.semantic_legend, vec!["function".to_string()]);
    assert_eq!(n.text, "a\nb");
}

#[test]
fn semantic_tokens_are_decoded() {
    let mut a = App::new_state();
    a.semantic_legend = vec!["function".to_string(), "variable".to_string()];
    let data = vec![1, 4, 3, 0, 0, 0, 6, 2, 1, 1, 2, 1, 5, 7, 0, 0, 2, 2];
    a.receive(LspMessage::SemanticTokens(data), "");
    let got: Vec<(usize, usize, usize, &str, u32)> = a
        .semantic_tokens
        .iter()
        .flat_map(|(line, ts)| ts.iter().map(move |t| (*line, t.start, t.length, t.token_type.as_str(), t.modifiers)))
        .collect();
    assert_eq!(got, vec![(1, 4, 3, "function", 0), (1, 10, 2, "variable", 1)]);
}

#[test]
fn prefix_test() {
    assert!(str_starts_with("println", "print"));
    assert!(str_starts_with("abc", ""));
    assert!(!str_starts_with("pr", "print"));
}

#[test]
fn languages_and_servers() {
    assert_eq!(language_for_path("src/main.rs"), Some("rust"));
    assert_eq!(language_for_path("app.tsx"), Some("typescript"));
    assert_eq!(language_for_path("Makefile"), None);
    assert_eq!(candidates_for("python"), vec!["pyright-langserver", "pylsp"]);
    assert!(candidates_for("cobol").is_empty());
    assert_eq!(args_for("pyright-langserver"), vec!["--stdio"]);
    assert!(args_for("clangd").is_empty());
    assert_eq!(root_marker_for("go"), "go.mod");
    assert_eq!(root_marker_for("cobol"), "");
}

#[test]
fn workspace_roots() {
    let ancestors = vec!["/p/src".to_string(), "/p".to_string(), "/".to_string()];
    assert_eq!(find_root("/p/src", "rust", &ancestors, &vec![false, true, true]), "/p");
    assert_eq!(find_root("/p/src", "rust", &ancestors, &vec![false, false, false]), "/p/src");
    assert_eq!(find_root("/p/src", "cobol", &ancestors, &vec![true, true, true]), "/p/src");
    assert_eq!(project_root(&ancestors, &vec![false, true, false]), "/p");
    assert_eq!(project_root(&ancestors, &vec![false, false, false]), ".");
}

#[test]
fn messages_are_routed() {
    let mut t = RequestTable::new();
    let c = t.issue(Request::Completion);
    let s = t.issue(Request::SemanticTokens);
    assert_eq!(t.route(Some("textDocument/publishDiagnostics"), Some(c as u64), false), Route::Diagnostics);
    assert_eq!(t.route(None, Some(c as u64), false), Route::Drop);
    assert_eq!(t.route(None, Some(c as u64), true), Route::Drop);
    assert_eq!(t.route(Some("other"), Some(s as u64), false), Route::Answer(Request::SemanticTokens));
    assert_eq!(t.route(None, None, true), Route::Drop);
}

#[test]
fn servers_are_picked_in_order() {
    assert_eq!(pick_server("python", &vec![false, true]), Some(("pylsp", vec![])));
    assert_eq!(pick_server("python", &vec![true, true]), Some(("pyright-langserver", vec!["--stdio"])));
    assert_eq!(pick_server("python", &vec![false, false]), None);
}

#[test]
fn decimal_digits() {
    assert_eq!(to_decimal(0), "0");
    assert_eq!(to_decimal(7), "7");
    assert_eq!(to_decimal(1204), "1204");
    assert_eq!(to_decimal(usize::MAX), usize::MAX.to_string());
}

#[test]
fn framed_message_has_length_header() {
    assert_eq!(frame_message("{}"), "Content-Length: 2\r\n\r\n{}");
    assert_eq!(frame_message(""), "Content-Length: 0\r\n\r\n");
    assert_eq!(frame_message("é"), "Content-Length: 2\r\n\r\né");
}

#[test]
fn framed_header_reads_back() {
    let body = "{\"jsonrpc\":\"2.0\",\"method\":\"initialized\",\"params\":{}}";
    let framed = frame_message(body);
    let mut lines = framed.split_inclusive('\n');
    assert_eq!(header_line(lines.next().unwrap()), HeaderLine::Length(body.len()));
    assert_eq!(header_line(lines.next().unwrap()), HeaderLine::End);
    assert_eq!(lines.next().unwrap(), body);
}

#[test]
fn semantic_tokens_are_kept_by_line() {
    let mut a = App::new_state();
    a.semantic_legend = vec!["function".to_string()];
    let data = vec![2, 0, 1, 0, 0, 0, 3, 1, 0, 0, 1, 1, 1, 0, 0];
    a.receive(LspMessage::SemanticTokens(data), "");
    assert_eq!(a.semantic_tokens.len(), 2);
    let starts: Vec<usize> = a.semantic_tokens[&2].iter().map(|t| t.start).collect();
    assert_eq!(starts, vec![0, 3]);
    assert_eq!(a.semantic_tokens[&3][0].start, 1);
}
