use ziro::editor::syntax::{lines_with_endings, styled_line, Highlighter, RawPiece, StyledPiece, ThemeError};

const SMALL_THEME: &str = r#"<?xml version="1.0" encoding="UTF-8"?>
<!DOCTYPE plist PUBLIC "-//Apple//DTD PLIST 1.0//EN" "http://www.apple.com/DTDs/PropertyList-1.0.dtd">
<plist version="1.0">
<dict>
  <key>name</key>
  <string>Small</string>
  <key>settings</key>
  <array>
    <dict>
      <key>settings</key>
      <dict>
        <key>foreground</key>
        <string>#FFFFFF</string>
        <key>background</key>
        <string>#000000</string>
      </dict>
    </dict>
  </array>
</dict>
</plist>
"#;

fn highlighter() -> Highlighter {
    match Highlighter::new(SMALL_THEME.as_bytes()) {
        Ok(h) => h,
        Err(_) => panic!("the small theme should read"),
    }
}

#[test]
fn lines_keep_their_endings() {
    assert_eq!(lines_with_endings("foo\nbar\nbaz"), vec!["foo\n", "bar\n", "baz"]);
    assert_eq!(lines_with_endings("a\n"), vec!["a\n"]);
    assert_eq!(lines_with_endings("\n\n"), vec!["\n", "\n"]);
    assert!(lines_with_endings("").is_empty());
}

#[test]
fn unhighlighted_line_is_plain() {
    let r = styled_line("let x\n", None);
    assert_eq!(r, vec![StyledPiece { text: "let x\n".to_string(), fg: None, bold: false, italic: false }]);
}

#[test]
fn font_bits_give_bold_and_italic() {
    let pieces = vec![
        RawPiece { red: 1, green: 2, blue: 3, font_bits: 5, text: "fn".to_string() },
        RawPiece { red: 4, green: 5, blue: 6, font_bits: 2, text: " main".to_string() },
        RawPiece { red: 7, green: 8, blue: 9, font_bits: 4, text: "()".to_string() },
    ];
    let r = styled_line("fn main()", Some(pieces));
    assert_eq!(
        r,
        vec![
            StyledPiece { text: "fn".to_string(), fg: Some((1, 2, 3)), bold: true, italic: true },
            StyledPiece { text: " main".to_string(), fg: Some((4, 5, 6)), bold: false, italic: false },
            StyledPiece { text: "()".to_string(), fg: Some((7, 8, 9)), bold: false, italic: true },
        ]
    );
}

#[test]
fn unreadable_theme_is_refused() {
    assert!(matches!(Highlighter::new(b"not a theme"), Err(ThemeError::Unreadable)));
}

#[test]
fn new_highlighter_uses_the_bundled_theme() {
    let h = highlighter();
    assert_eq!(h.active_theme, "ziro-dark");
    assert!(h.theme_set.themes.contains_key("ziro-dark"));
}

#[test]
fn set_theme_only_to_a_known_theme() {
    let mut h = highlighter();
    assert!(!h.set_theme("no-such-theme".to_string()));
    assert_eq!(h.active_theme, "ziro-dark");
    assert!(h.set_theme("base16-ocean.dark".to_string()));
    assert_eq!(h.active_theme, "base16-ocean.dark");
}

#[test]
fn grammar_by_extension_or_fallback() {
    let h = highlighter();
    assert_eq!(h.syntax_for("src/main.rs").name, "Rust");
    assert_eq!(h.syntax_for("notes.py").name, "Python");
    assert_eq!(h.syntax_for("").name, "Rust");
    assert_eq!(h.syntax_for("README.unknownext").name, "Plain Text");
    assert_eq!(h.syntax_for("Makefile.").name, "Plain Text");
}

#[test]
fn empty_text_is_one_empty_line() {
    let h = highlighter();
    assert_eq!(h.highlight_lines("", "a.rs"), vec![Vec::<StyledPiece>::new()]);
}

#[test]
fn highlighted_lines_show_the_text() {
    let h = highlighter();
    let content = "fn main() {\n    let x = 1;\n}";
    let lines = h.highlight_lines(content, "main.rs");
    assert_eq!(lines.len(), 3);
    let shown: Vec<String> = lines.iter().map(|l| l.iter().map(|p| p.text.as_str()).collect::<String>()).collect();
    assert_eq!(shown, vec!["fn main() {\n", "    let x = 1;\n", "}"]);
    assert!(lines[0].iter().all(|p| p.fg.is_some()));
}
