//! Syntax highlighting: choosing a grammar for a file, the theme in use,
//! and turning what syntect makes of each line into coloured pieces.
use vstd::prelude::*;
use vstd::utf8::*;
use syntect::easy::HighlightLines;
use syntect::highlighting::ThemeSet;
use syntect::parsing::{SyntaxReference, SyntaxSet};
use crate::text::{
    bytes_of, lemma_ascii_boundary, lemma_next_newline, lemma_next_newline_is, lf_byte,
    lemma_encode_concat, next_newline, path_extension, path_extension_of, strings_bytes, substring,
};

verus! {

#[verifier::external_type_specification]
#[verifier::external_body]
pub struct ExSyntaxSet(SyntaxSet);

#[verifier::external_type_specification]
#[verifier::external_body]
pub struct ExSyntaxReference(SyntaxReference);

#[verifier::external_type_specification]
#[verifier::external_body]
pub struct ExThemeSet(ThemeSet);

#[verifier::external_type_specification]
#[verifier::external_body]
pub struct ExTheme(syntect::highlighting::Theme);

#[verifier::external_type_specification]
#[verifier::external_body]
pub struct ExHighlightLines<'a>(HighlightLines<'a>);

#[verifier::external_type_specification]
#[verifier::external_body]
pub struct ExLoadingError(syntect::LoadingError);

/// The names of the themes in a theme set.
pub uninterp spec fn theme_names(themes: ThemeSet) -> Set<Seq<char>>;

/// Whether `source` reads as a theme.
pub uninterp spec fn theme_parses(source: Seq<u8>) -> bool;

/// Whether a syntax set holds the grammar named "Plain Text".
pub uninterp spec fn has_plain_text(set: SyntaxSet) -> bool;

/// The grammar that a syntax set gives for a file extension.
pub uninterp spec fn syntax_by_extension(set: SyntaxSet, extension: Seq<char>) -> Option<SyntaxReference>;

/// The grammar that a syntax set gives for a token (an extension or a name).
pub uninterp spec fn syntax_by_token(set: SyntaxSet, token: Seq<char>) -> Option<SyntaxReference>;

/// The grammar named "Plain Text" in a syntax set.
pub uninterp spec fn plain_text_syntax(set: SyntaxSet) -> SyntaxReference;

/// syntect's bundled grammars, for lines that keep their line endings
/// (`SyntaxSet::load_defaults_newlines`). Claimed: the set holds "Plain
/// Text", which syntect's documentation uses as the fallback grammar of
/// this set.
#[verifier::external_body]
fn default_syntaxes() -> (r: SyntaxSet)
    ensures
        has_plain_text(r),
{
    SyntaxSet::load_defaults_newlines()
}

/// syntect's bundled themes (`ThemeSet::load_defaults`). Nothing is
/// claimed of which they are.
#[verifier::external_body]
fn default_themes() -> (r: ThemeSet) {
    ThemeSet::load_defaults()
}

/// Reads a theme from the bytes of a `.tmTheme` file
/// (`ThemeSet::load_from_reader`). Claimed: it succeeds exactly when the
/// bytes read as a theme, which depends on the bytes alone.
#[verifier::external_body]
fn read_theme(source: &[u8]) -> (r: Result<syntect::highlighting::Theme, syntect::LoadingError>)
    ensures
        r is Ok <==> theme_parses(source@),
{
    ThemeSet::load_from_reader(&mut std::io::Cursor::new(source))
}

/// Adds a theme under a name (`BTreeMap::insert` on `themes`). Claimed: the
/// names are the old ones and `name`.
#[verifier::external_body]
fn add_theme(themes: &mut ThemeSet, name: String, theme: syntect::highlighting::Theme)
    ensures
        theme_names(*final(themes)) == theme_names(*old(themes)).insert(name@),
{
    themes.themes.insert(name, theme);
}

/// Whether a theme set has a theme of this name (`BTreeMap::contains_key`).
#[verifier::external_body]
fn has_theme(themes: &ThemeSet, name: &str) -> (r: bool)
    ensures
        r == theme_names(*themes).contains(name@),
{
    themes.themes.contains_key(name)
}

/// The theme of this name (`BTreeMap::index`, which panics on a missing
/// name). Nothing is claimed of the theme itself.
#[verifier::external_body]
fn theme_in_set<'a>(themes: &'a ThemeSet, name: &str) -> (r: &'a syntect::highlighting::Theme)
    requires
        theme_names(*themes).contains(name@),
{
    &themes.themes[name]
}

/// The grammar that a lookup found, if any.
pub open spec fn found(r: Option<&SyntaxReference>) -> Option<SyntaxReference> {
    match r {
        Some(s) => Some(*s),
        None => None,
    }
}

/// The grammar for a file extension (`SyntaxSet::find_syntax_by_extension`).
#[verifier::external_body]
fn find_by_extension<'a>(set: &'a SyntaxSet, extension: &str) -> (r: Option<&'a SyntaxReference>)
    ensures
        found(r) == syntax_by_extension(*set, extension@),
{
    set.find_syntax_by_extension(extension)
}

/// The grammar for a token (`SyntaxSet::find_syntax_by_token`).
#[verifier::external_body]
fn find_by_token<'a>(set: &'a SyntaxSet, token: &str) -> (r: Option<&'a SyntaxReference>)
    ensures
        found(r) == syntax_by_token(*set, token@),
{
    set.find_syntax_by_token(token)
}

/// The "Plain Text" grammar (`SyntaxSet::find_syntax_plain_text`, which
/// panics when the set has none).
#[verifier::external_body]
fn find_plain_text<'a>(set: &'a SyntaxSet) -> (r: &'a SyntaxReference)
    requires
        has_plain_text(*set),
    ensures
        *r == plain_text_syntax(*set),
{
    set.find_syntax_plain_text()
}

/// Starts highlighting a file in a grammar with a theme
/// (`HighlightLines::new`). Nothing is claimed of the state it starts in.
#[verifier::external_body]
fn start_highlighting<'a>(syntax: &SyntaxReference, theme: &'a syntect::highlighting::Theme) -> (r: HighlightLines<'a>) {
    HighlightLines::new(syntax, theme)
}

/// A piece of a line as syntect highlights it: the foreground colour, the
/// bits of the font style (1 bold, 2 underline, 4 italic) and the text.
#[derive(Debug, Clone, PartialEq, Eq)]
pub struct RawPiece {
    pub red: u8,
    pub green: u8,
    pub blue: u8,
    pub font_bits: u8,
    pub text: String,
}

/// The texts of `pieces`, one after the other.
pub open spec fn pieces_text(pieces: Seq<RawPiece>) -> Seq<char>
    decreases pieces.len(),
{
    if pieces.len() == 0 {
        seq![]
    } else {
        pieces_text(pieces.drop_last()) + pieces.last().text@
    }
}

/// Highlights the next line of the file (`HighlightLines::highlight_line`),
/// `None` where syntect reports an error. The result depends on the lines
/// before, so it gets no name. Claimed: the pieces' texts, one after the
/// other, begin the line (syntect cuts consecutive slices of it from its
/// start; that they make up the whole line, as its documentation says, is
/// not claimed, since the source can stop early), and no piece is empty
/// (syntect skips empty slices).
#[verifier::external_body]
fn highlight_next_line(h: &mut HighlightLines, line: &str, set: &SyntaxSet) -> (r: Option<Vec<RawPiece>>)
    ensures
        r matches Some(ps) ==> pieces_text(ps@).is_prefix_of(line@),
        r matches Some(ps) ==> forall|i: int| 0 <= i < ps@.len() ==> (#[trigger] ps@[i]).text@.len() > 0,
{
    match h.highlight_line(line, set) {
        Ok(ranges) => Some(ranges.into_iter().map(|(s, t)| RawPiece {
            red: s.foreground.r, green: s.foreground.g, blue: s.foreground.b,
            font_bits: s.font_style.bits(), text: t.to_string(),
        }).collect()),
        Err(_) => None,
    }
}

/// A piece of a line as the editor shows it: its text, its foreground
/// colour (none: the default) and whether it is bold or italic.
#[derive(Debug, Clone, PartialEq, Eq)]
pub struct StyledPiece {
    pub text: String,
    pub fg: Option<(u8, u8, u8)>,
    pub bold: bool,
    pub italic: bool,
}

/// A piece of syntect's in the editor's terms: its colour, bold where the
/// font style has the bold bit, italic where it has the italic bit.
pub open spec fn styled(p: RawPiece) -> StyledPiece {
    StyledPiece {
        text: p.text,
        fg: Some((p.red, p.green, p.blue)),
        bold: p.font_bits & 1 == 1,
        italic: p.font_bits & 4 == 4,
    }
}

/// Each of `pieces` in the editor's terms.
pub open spec fn styled_all(pieces: Seq<RawPiece>) -> Seq<StyledPiece> {
    pieces.map_values(|p: RawPiece| styled(p))
}

/// A piece with the text `text` in the default style.
pub open spec fn is_plain_piece(p: StyledPiece, text: Seq<char>) -> bool {
    p.text@ == text && p.fg is None && !p.bold && !p.italic
}

/// The pieces of a line: syntect's pieces in the editor's terms, or the
/// whole line in the default style where syntect could not highlight it.
pub fn styled_line(line: &str, pieces: Option<Vec<RawPiece>>) -> (r: Vec<StyledPiece>)
    ensures
        match pieces {
            Some(ps) => r@ == styled_all(ps@),
            None => r@.len() == 1 && is_plain_piece(r@[0], line@),
        },
{
    match pieces {
        None => {
            let mut r: Vec<StyledPiece> = Vec::new();
            r.push(StyledPiece { text: line.to_string(), fg: None, bold: false, italic: false });
            r
        },
        Some(ps) => {
            let mut r: Vec<StyledPiece> = Vec::new();
            let mut i: usize = 0;
            while i < ps.len()
                invariant
                    i <= ps@.len(),
                    r@ == styled_all(ps@.take(i as int)),
                decreases ps@.len() - i,
            {
                let p = &ps[i];
                r.push(StyledPiece {
                    text: p.text.clone(),
                    fg: Some((p.red, p.green, p.blue)),
                    bold: p.font_bits & 1 == 1,
                    italic: p.font_bits & 4 == 4,
                });
                proof {
                    assert(ps@.take(i + 1) =~= ps@.take(i as int).push(ps@[i as int]));
                    assert(r@ =~= styled_all(ps@.take(i + 1)));
                }
                i += 1;
            }
            proof {
                assert(ps@.take(i as int) =~= ps@);
            }
            r
        },
    }
}

/// `pieces` show the line `line` (its bytes): they are the whole line in
/// the default style, or syntect's pieces in the editor's terms, whose
/// texts begin the line.
pub open spec fn shows_line(pieces: Seq<StyledPiece>, line: Seq<u8>) -> bool {
    ||| pieces.len() == 1 && pieces[0].fg is None && !pieces[0].bold && !pieces[0].italic
        && bytes_of(pieces[0].text@) == line
    ||| exists|ps: Seq<RawPiece>|
        bytes_of(pieces_text(ps)).is_prefix_of(line) && pieces == #[trigger] styled_all(ps)
}

/// A prefix of a text is, in bytes, a prefix of the text's bytes.
pub proof fn lemma_prefix_bytes(a: Seq<char>, b: Seq<char>)
    requires
        a.is_prefix_of(b),
    ensures
        bytes_of(a).is_prefix_of(bytes_of(b)),
{
    let rest = b.subrange(a.len() as int, b.len() as int);
    assert(b =~= a + rest);
    lemma_encode_concat(a, rest);
}

/// The name of the theme that is added to syntect's bundled ones.
pub open spec fn bundled_theme_name() -> Seq<char> {
    "ziro-dark"@
}

/// The grammar for the file `path`: the one for its extension when the set
/// has one; for an unnamed file the one for the token "Rust" when there is
/// one; else "Plain Text".
pub open spec fn syntax_choice(set: SyntaxSet, path: Seq<char>) -> SyntaxReference {
    let by_extension = match path_extension_of(path) {
        Some(e) => syntax_by_extension(set, e),
        None => None,
    };
    let by_name = if path.len() == 0 { syntax_by_token(set, "Rust"@) } else { None };
    match by_extension {
        Some(s) => s,
        None => match by_name {
            Some(s) => s,
            None => plain_text_syntax(set),
        },
    }
}

/// The lines of `t` from byte `from` on, each with the line feed that ends
/// it; the text after the last line feed, when there is any, is the last
/// line.
pub open spec fn lines_with_endings_from(t: Seq<u8>, from: int) -> Seq<Seq<u8>>
    decreases t.len() - from,
{
    if from < 0 || from >= t.len() {
        seq![]
    } else {
        let j = next_newline(t, from);
        if j >= t.len() {
            seq![t.subrange(from, t.len() as int)]
        } else {
            proof {
                lemma_next_newline(t, from);
            }
            seq![t.subrange(from, j + 1)] + lines_with_endings_from(t, j + 1)
        }
    }
}

/// The lines of `t` with their line endings, as syntect's
/// `LinesWithEndings` gives them: `"a\nb"` gives `"a\n"` and `"b"`, and the
/// empty text no line.
pub open spec fn lines_with_endings_of(t: Seq<u8>) -> Seq<Seq<u8>> {
    lines_with_endings_from(t, 0)
}

/// Splits `text` after each line feed.
pub fn lines_with_endings(text: &str) -> (parts: Vec<String>)
    ensures
        strings_bytes(parts@) == lines_with_endings_of(bytes_of(text@)),
{
    let bytes = text.as_bytes();
    let n = bytes.len();
    let ghost t = bytes_of(text@);
    proof {
        encode_utf8_valid_utf8(text@);
        is_char_boundary_start_end_of_seq(t);
    }
    let mut parts: Vec<String> = Vec::new();
    let mut start: usize = 0;
    let mut j: usize = 0;
    while j < n
        invariant
            bytes@ == t,
            t == bytes_of(text@),
            n == t.len(),
            valid_utf8(t),
            is_char_boundary(t, t.len() as int),
            0 <= start <= j <= n,
            is_char_boundary(t, start as int),
            forall|k: int| start <= k < j ==> t[k] != lf_byte(),
            strings_bytes(parts@) + lines_with_endings_from(t, start as int) == lines_with_endings_of(t),
        decreases n - j,
    {
        if bytes[j] == 10 {
            proof {
                lemma_next_newline_is(t, start as int, j as int);
                lemma_ascii_boundary(t, j as int);
            }
            let piece = substring(text, start, j + 1);
            let ghost old_parts = parts@;
            parts.push(piece);
            proof {
                assert(lines_with_endings_from(t, start as int) == seq![t.subrange(start as int, j + 1)]
                    + lines_with_endings_from(t, j + 1));
                assert(strings_bytes(parts@) =~= strings_bytes(old_parts) + seq![bytes_of(piece@)]);
                assert(strings_bytes(parts@) + lines_with_endings_from(t, j + 1) =~= strings_bytes(old_parts)
                    + lines_with_endings_from(t, start as int));
            }
            start = j + 1;
        }
        j += 1;
    }
    if start < n {
        proof {
            lemma_next_newline_is(t, start as int, n as int);
        }
        let last = substring(text, start, n);
        let ghost old_parts = parts@;
        parts.push(last);
        proof {
            assert(lines_with_endings_from(t, start as int) == seq![t.subrange(start as int, n as int)]);
            assert(strings_bytes(parts@) =~= strings_bytes(old_parts) + seq![bytes_of(last@)]);
        }
    } else {
        proof {
            assert(strings_bytes(parts@) =~= strings_bytes(parts@) + lines_with_endings_from(t, start as int));
        }
    }
    parts
}

/// Why a highlighter could not be made.
#[derive(Debug, Clone, Copy, PartialEq, Eq, Structural)]
pub enum ThemeError {
    /// The bundled theme does not read as a theme.
    Unreadable,
}

/// The bundled theme, read from its bytes.
pub fn load_embedded_theme(bytes: &[u8]) -> (r: Result<syntect::highlighting::Theme, ThemeError>)
    ensures
        r is Ok <==> theme_parses(bytes@),
        r matches Err(e) ==> e == ThemeError::Unreadable,
{
    match read_theme(bytes) {
        Ok(t) => Ok(t),
        Err(_) => Err(ThemeError::Unreadable),
    }
}

/// syntect's grammars and themes, and the theme in use.
pub struct Highlighter {
    pub syntax_set: SyntaxSet,
    pub theme_set: ThemeSet,
    pub active_theme: String,
}

impl Highlighter {
    /// The theme in use is one of the set, and the grammars include "Plain
    /// Text".
    pub open spec fn wf(&self) -> bool {
        &&& theme_names(self.theme_set).contains(self.active_theme@)
        &&& has_plain_text(self.syntax_set)
    }

    /// syntect's bundled grammars and themes, with the theme read from
    /// `embedded_theme` added as "ziro-dark" and in use; an error when those
    /// bytes do not read as a theme.
    pub fn new(embedded_theme: &[u8]) -> (r: Result<Highlighter, ThemeError>)
        ensures
            r is Ok <==> theme_parses(embedded_theme@),
            r matches Err(e) ==> e == ThemeError::Unreadable,
            r matches Ok(h) ==> h.wf() && h.active_theme@ == bundled_theme_name(),
    {
        let mut theme_set = default_themes();
        let ziro_dark = match load_embedded_theme(embedded_theme) {
            Ok(t) => t,
            Err(e) => return Err(e),
        };
        let name = String::from_str("ziro-dark");
        proof {
            reveal_strlit("ziro-dark");
        }
        add_theme(&mut theme_set, name.clone(), ziro_dark);
        Ok(Highlighter { syntax_set: default_syntaxes(), theme_set, active_theme: name })
    }

    /// Makes the theme `name` the one in use, when the set has it; says
    /// whether it did.
    pub fn set_theme(&mut self, name: String) -> (r: bool)
        requires
            old(self).wf(),
        ensures
            r == theme_names(old(self).theme_set).contains(name@),
            final(self).wf(),
            final(self).theme_set == old(self).theme_set,
            final(self).syntax_set == old(self).syntax_set,
            final(self).active_theme@ == if r { name@ } else { old(self).active_theme@ },
    {
        if !has_theme(&self.theme_set, name.as_str()) {
            return false;
        }
        self.active_theme = name;
        true
    }

    /// The lines of `content` as shown for the file `file_path`: for the
    /// empty text one line without pieces; else, for each line with its
    /// line ending, syntect's pieces (in the grammar for the file and the
    /// theme in use) or, where syntect fails, the whole line unstyled.
    pub fn highlight_lines(&self, content: &str, file_path: &str) -> (r: Vec<Vec<StyledPiece>>)
        requires
            self.wf(),
        ensures
            content@.len() == 0 ==> r@.len() == 1 && r@[0]@.len() == 0,
            content@.len() > 0 ==> r@.len() == lines_with_endings_of(bytes_of(content@)).len(),
            content@.len() > 0 ==> forall|i: int|
                0 <= i < r@.len() ==> shows_line(#[trigger] r@[i]@, lines_with_endings_of(bytes_of(content@))[i]),
    {
        if content.is_empty() {
            let mut out: Vec<Vec<StyledPiece>> = Vec::new();
            out.push(Vec::new());
            return out;
        }
        let syntax = self.syntax_for(file_path);
        let theme = theme_in_set(&self.theme_set, self.active_theme.as_str());
        let mut h = start_highlighting(syntax, theme);
        let lines = lines_with_endings(content);
        let ghost ls = lines_with_endings_of(bytes_of(content@));
        let mut out: Vec<Vec<StyledPiece>> = Vec::new();
        let mut i: usize = 0;
        while i < lines.len()
            invariant
                i <= lines@.len(),
                strings_bytes(lines@) == ls,
                out@.len() == i,
                forall|k: int| 0 <= k < i ==> shows_line(#[trigger] out@[k]@, ls[k]),
            decreases lines@.len() - i,
        {
            let line = lines[i].as_str();
            let raw = highlight_next_line(&mut h, line, &self.syntax_set);
            let ghost raw_copy = raw;
            let pieces = styled_line(line, raw);
            proof {
                assert(ls[i as int] == bytes_of(lines@[i as int]@));
                match raw_copy {
                    Some(ps) => {
                        lemma_prefix_bytes(pieces_text(ps@), line@);
                        assert(bytes_of(pieces_text(ps@)).is_prefix_of(ls[i as int])
                            && pieces@ == styled_all(ps@));
                    },
                    None => {},
                }
                assert(shows_line(pieces@, ls[i as int]));
            }
            out.push(pieces);
            i += 1;
        }
        out
    }

    /// The grammar for the file `file_path`.
    pub fn syntax_for(&self, file_path: &str) -> (r: &SyntaxReference)
        requires
            self.wf(),
        ensures
            *r == syntax_choice(self.syntax_set, file_path@),
    {
        let by_extension = match path_extension(file_path) {
            Some(e) => find_by_extension(&self.syntax_set, e.as_str()),
            None => None,
        };
        match by_extension {
            Some(s) => s,
            None => {
                let by_name = if file_path.is_empty() {
                    let rust = "Rust";
                    proof {
                        reveal_strlit("Rust");
                    }
                    find_by_token(&self.syntax_set, rust)
                } else {
                    None
                };
                match by_name {
                    Some(s) => s,
                    None => find_plain_text(&self.syntax_set),
                }
            },
        }
    }
}

} // verus!
