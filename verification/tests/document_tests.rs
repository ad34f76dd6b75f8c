use ziro::document::Document as RootDocument;
use ziro::editor::document::Document;

fn doc(lines: &[&str]) -> Document {
    Document { lines: lines.iter().map(|s| s.to_string()).collect() }
}

fn lines(d: &Document) -> Vec<&str> {
    d.lines.iter().map(|s| s.as_str()).collect()
}

#[test]
fn new_document_has_one_empty_line() {
    let d = Document::new();
    assert_eq!(lines(&d), vec![""]);
    let r = RootDocument::new();
    assert_eq!(r.lines, vec![String::new()]);
}

#[test]
fn insert_char_goes_at_the_byte_column() {
    let mut d = doc(&["hllo"]);
    d.insert_char(1, 0, 'e');
    assert_eq!(lines(&d), vec!["hello"]);
    d.insert_char(5, 0, 'é');
    assert_eq!(lines(&d), vec!["helloé"]);
}

#[test]
fn split_line_moves_the_rest_down() {
    let mut d = doc(&["hello world", "next"]);
    d.split_line(5, 0);
    assert_eq!(lines(&d), vec!["hello", " world", "next"]);
    let mut e = doc(&["ab"]);
    e.split_line(2, 0);
    assert_eq!(lines(&e), vec!["ab", ""]);
}

#[test]
fn remove_char_takes_a_whole_character() {
    let mut d = doc(&["aéb"]);
    d.remove_char(1, 0);
    assert_eq!(lines(&d), vec!["ab"]);
}

#[test]
fn backspace_inside_a_line() {
    let mut d = doc(&["abc"]);
    let r = d.backspace(2, 0);
    assert_eq!(r, (1, 0));
    assert_eq!(lines(&d), vec!["ac"]);
}

#[test]
fn backspace_at_line_start_joins_lines() {
    let mut d = doc(&["ab", "cd"]);
    let r = d.backspace(0, 1);
    assert_eq!(r, (2, 0));
    assert_eq!(lines(&d), vec!["abcd"]);
}

#[test]
fn backspace_at_document_start_does_nothing() {
    let mut d = doc(&["ab"]);
    let r = d.backspace(0, 0);
    assert_eq!(r, (0, 0));
    assert_eq!(lines(&d), vec!["ab"]);
}

#[test]
fn insert_str_single_line() {
    let mut d = doc(&["ad"]);
    let r = d.insert_str(1, 0, "bc");
    assert_eq!(r, (3, 0));
    assert_eq!(lines(&d), vec!["abcd"]);
}

#[test]
fn insert_str_several_lines_with_crlf() {
    let mut d = doc(&["start|end"]);
    let r = d.insert_str(6, 0, "one\r\ntwo\nthree");
    assert_eq!(r, (5, 2));
    assert_eq!(lines(&d), vec!["start|one", "two", "threeend"]);
}

#[test]
fn insert_str_ending_in_newline() {
    let mut d = doc(&["xy"]);
    let r = d.insert_str(1, 0, "a\n");
    assert_eq!(r, (0, 1));
    assert_eq!(lines(&d), vec!["xa", "y"]);
}

#[test]
fn extract_range_on_one_line() {
    let d = doc(&["hello world"]);
    assert_eq!(d.extract_range((6, 0), (11, 0)), "world");
}

#[test]
fn extract_range_across_lines() {
    let d = doc(&["abc", "def", "ghi"]);
    assert_eq!(d.extract_range((1, 0), (2, 2)), "bc\ndef\ngh");
}

#[test]
fn delete_range_across_lines() {
    let mut d = doc(&["abc", "def", "ghi"]);
    let r = d.delete_range((1, 0), (2, 2));
    assert_eq!(r, (1, 0));
    assert_eq!(lines(&d), vec!["ai"]);
}

#[test]
fn delete_then_paste_restores_the_text() {
    let before = doc(&["abc", "def", "ghi"]);
    let mut d = doc(&["abc", "def", "ghi"]);
    let cut = d.extract_range((1, 0), (2, 2));
    let at = d.delete_range((1, 0), (2, 2));
    d.insert_str(at.0, at.1, &cut);
    assert_eq!(d.lines, before.lines);
}

#[test]
fn remove_undoes_insert() {
    let mut d = doc(&["wörd"]);
    d.insert_char(3, 0, 'x');
    d.remove_char(3, 0);
    assert_eq!(lines(&d), vec!["wörd"]);
}

#[test]
fn backspace_undoes_insert_and_split() {
    let mut d = doc(&["abc"]);
    d.insert_char(1, 0, 'Z');
    d.backspace(2, 0);
    assert_eq!(lines(&d), vec!["abc"]);
    d.split_line(1, 0);
    let r = d.backspace(0, 1);
    assert_eq!(r, (1, 0));
    assert_eq!(lines(&d), vec!["abc"]);
}

#[test]
fn from_text_splits_lines_like_the_file_reader() {
    let d = Document::from_text("one\r\ntwo\nthree\n");
    assert_eq!(lines(&d), vec!["one", "two", "three"]);
    let empty = Document::from_text("");
    assert_eq!(lines(&empty), vec![""]);
    let blank_last = Document::from_text("a\n\n");
    assert_eq!(lines(&blank_last), vec!["a", ""]);
}

#[test]
fn to_text_joins_with_newlines() {
    let d = doc(&["a", "b", ""]);
    assert_eq!(d.to_text(), "a\nb\n");
}

#[test]
fn save_then_open_gives_the_same_lines() {
    let d = doc(&["fn main() {", "    x", "}"]);
    let text = d.to_text();
    let back = Document::from_text(&text);
    assert_eq!(back.lines, d.lines);
}

#[test]
fn open_then_save_normalises_line_ends() {
    let text = "a\r\nb\n";
    let d = Document::from_text(text);
    assert_eq!(d.to_text(), "a\nb");
}
