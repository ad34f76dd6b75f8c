//! What keys do to the editor.
use vstd::prelude::*;
use vstd::utf8::*;
use crate::app::{ActionKind, App, ChangeNotice};
use crate::lsp::protocol::CompletionItem;
use crate::editor::cursor::Cursor;
use crate::text::{char_width_at, cut};
use crate::editor::document::{with_char_inserted, with_char_removed, with_line_joined_up, with_line_split};
use crate::management::history_management::undo_pushed;
use crate::text::{
    byte_len, bytes_of, char_bytes, is_alphanumeric, is_boundary, is_whitespace, is_whitespace_char, is_word_char,
    lemma_ascii_char_bytes, lemma_encode_concat, lemma_encode_injective, substring,
    lemma_boundary_in_range, lemma_char_bytes, lemma_prefix_boundary, lemma_splice_boundaries, splice,
};

verus! {

broadcast use {vstd::utf8::group_utf8_lib, vstd::seq::group_seq_axioms};

/// A key, as far as the editor tells keys apart.
#[derive(Debug, Clone, Copy, PartialEq, Eq, Structural)]
pub enum KeyCode {
    Char(char),
    Backspace,
    Enter,
    Left,
    Right,
    Up,
    Down,
    Tab,
    Esc,
    Other,
}

/// The modifier keys held with a key.
#[derive(Debug, Clone, Copy, PartialEq, Eq, Structural)]
pub struct KeyModifiers {
    pub control: bool,
    pub alt: bool,
    pub shift: bool,
}

/// A key press.
#[derive(Debug, Clone, Copy, PartialEq, Eq, Structural)]
pub struct KeyEvent {
    pub code: KeyCode,
    pub modifiers: KeyModifiers,
}

/// What the mouse did, as far as the editor tells mouse events apart.
#[derive(Debug, Clone, Copy, PartialEq, Eq, Structural)]
pub enum MouseKind {
    Moved,
    LeftDown,
    LeftDrag,
    LeftUp,
    ScrollUp,
    ScrollDown,
    Other,
}

/// A mouse event at the cell `(column, row)`.
#[derive(Debug, Clone, Copy, PartialEq, Eq, Structural)]
pub struct MouseEvent {
    pub kind: MouseKind,
    pub column: u16,
    pub row: u16,
}

/// The closing character typed along with an opening one.
pub open spec fn closing_of(c: char) -> Option<char> {
    if c == '(' {
        Some(')')
    } else if c == '{' {
        Some('}')
    } else if c == '[' {
        Some(']')
    } else if c == '"' {
        Some('"')
    } else if c == '`' {
        Some('`')
    } else if c == '\'' {
        Some('\'')
    } else {
        None
    }
}

/// The closing character typed along with an opening one.
pub fn closing_char(c: char) -> (k: Option<char>)
    ensures
        k == closing_of(c),
{
    if c == '(' {
        Some(')')
    } else if c == '{' {
        Some('}')
    } else if c == '[' {
        Some(']')
    } else if c == '"' {
        Some('"')
    } else if c == '`' {
        Some('`')
    } else if c == '\'' {
        Some('\'')
    } else {
        None
    }
}

/// A character below 0x80 takes one byte.
pub proof fn lemma_ascii_width(c: char)
    ensures
        ((c as u32) < 0x80) == (char_bytes(c).len() == 1),
{
    lemma_char_bytes(c);
    char_is_scalar(c);
}

/// `b` is `a` after an edit that leaves the cursor and text as they are in
/// `b`, records `action`, saves an undo step first when `pushes`, and drops
/// what the edit made stale.
pub open spec fn edited(a: App, b: App, pushes: bool, action: ActionKind) -> bool {
    &&& if pushes {
        undo_pushed(a, b)
    } else {
        b.undo_stack == a.undo_stack && b.redo_stack == a.redo_stack
    }
    &&& App::after_change(
        App {
            document: b.document,
            cursor: b.cursor,
            undo_stack: b.undo_stack,
            redo_stack: b.redo_stack,
            last_action: action,
            ..a
        },
        b,
    )
}

/// `a` with the text and cursor of `b`: the state an edit hands to the language server.
pub open spec fn with_text_of(a: App, b: App) -> App {
    App { document: b.document, cursor: b.cursor, ..a }
}

/// Typing `c` starts a new word (for undo): `c` is whitespace, or it goes at
/// the start of the line, or the character before the cursor (counted in
/// characters, as `chars().nth(x - 1)`) is whitespace or missing.
pub open spec fn at_word_start(a: App, c: char) -> bool {
    let chars = a.document.lines@[a.cursor.y as int]@;
    is_whitespace_char(c) || a.cursor.x == 0 || a.cursor.x - 1 >= chars.len() || is_whitespace_char(
        chars[a.cursor.x - 1],
    )
}

/// Where a run of whitespace ends when read backwards from character `k` of `s`.
pub open spec fn ws_run_start(s: Seq<char>, k: int) -> int
    decreases k,
{
    if k <= 0 || k > s.len() {
        0
    } else if is_whitespace_char(s[k - 1]) {
        ws_run_start(s, k - 1)
    } else {
        k
    }
}

/// Where a run of non-whitespace characters of one class (word or not)
/// ends when read backwards from character `k` of `s`.
pub open spec fn class_run_start(s: Seq<char>, k: int, word: bool) -> int
    decreases k,
{
    if k <= 0 || k > s.len() {
        0
    } else if !is_whitespace_char(s[k - 1]) && is_word_char(s[k - 1]) == word {
        class_run_start(s, k - 1, word)
    } else {
        k
    }
}

/// The character count left before the cursor after a jump one word to the
/// left over the characters `s` before it: past any whitespace, then past
/// the run of word characters or of other characters that precedes it.
pub open spec fn word_left_chars(s: Seq<char>) -> int {
    let k = ws_run_start(s, s.len() as int);
    if k == 0 {
        0
    } else {
        class_run_start(s, k, is_word_char(s[k - 1]))
    }
}

/// Where a run of whitespace ends when read forwards from character `k` of `s`.
pub open spec fn ws_run_end(s: Seq<char>, k: int) -> int
    decreases s.len() - k,
{
    if k < 0 || k >= s.len() {
        s.len() as int
    } else if is_whitespace_char(s[k]) {
        ws_run_end(s, k + 1)
    } else {
        k
    }
}

/// Where a run of non-whitespace characters of one class ends when read
/// forwards from character `k` of `s`.
pub open spec fn class_run_end(s: Seq<char>, k: int, word: bool) -> int
    decreases s.len() - k,
{
    if k < 0 || k >= s.len() {
        s.len() as int
    } else if !is_whitespace_char(s[k]) && is_word_char(s[k]) == word {
        class_run_end(s, k + 1, word)
    } else {
        k
    }
}

/// The number of characters a jump one word to the right passes over the
/// characters `s` after the cursor.
pub open spec fn word_right_chars(s: Seq<char>) -> int {
    let k = ws_run_end(s, 0);
    if k >= s.len() {
        s.len() as int
    } else {
        class_run_end(s, k, is_word_char(s[k]))
    }
}

proof fn lemma_ws_run_start_bounds(s: Seq<char>, k: int)
    requires
        0 <= k <= s.len(),
    ensures
        0 <= ws_run_start(s, k) <= k,
    decreases k,
{
    if k > 0 && is_whitespace_char(s[k - 1]) {
        lemma_ws_run_start_bounds(s, k - 1);
    }
}

proof fn lemma_class_run_start_bounds(s: Seq<char>, k: int, word: bool)
    requires
        0 <= k <= s.len(),
    ensures
        0 <= class_run_start(s, k, word) <= k,
    decreases k,
{
    if k > 0 && !is_whitespace_char(s[k - 1]) && is_word_char(s[k - 1]) == word {
        lemma_class_run_start_bounds(s, k - 1, word);
    }
}

proof fn lemma_ws_run_end_bounds(s: Seq<char>, k: int)
    requires
        0 <= k <= s.len(),
    ensures
        k <= ws_run_end(s, k) <= s.len(),
    decreases s.len() - k,
{
    if k < s.len() && is_whitespace_char(s[k]) {
        lemma_ws_run_end_bounds(s, k + 1);
    }
}

proof fn lemma_class_run_end_bounds(s: Seq<char>, k: int, word: bool)
    requires
        0 <= k <= s.len(),
    ensures
        k <= class_run_end(s, k, word) <= s.len(),
    decreases s.len() - k,
{
    if k < s.len() && !is_whitespace_char(s[k]) && is_word_char(s[k]) == word {
        lemma_class_run_end_bounds(s, k + 1, word);
    }
}

/// Whether `c` belongs to a word.
pub(crate) fn is_word(c: char) -> (r: bool)
    ensures
        r == is_word_char(c),
{
    is_alphanumeric(c) || c == '_'
}

/// Whether character `i` of `s` is not whitespace and is a word character
/// exactly when `word` holds.
fn in_class_run(s: &str, i: usize, word: bool) -> (r: bool)
    requires
        i < s@.len(),
    ensures
        r == (!is_whitespace_char(s@[i as int]) && is_word_char(s@[i as int]) == word),
{
    let c = s.get_char(i);
    !is_whitespace(c) && is_word(c) == word
}

/// The characters before byte `x` of a line with bytes `b`.
pub open spec fn chars_before(b: Seq<u8>, x: int) -> Seq<char> {
    vstd::utf8::decode_utf8(b.take(x))
}

/// The characters from byte `x` of a line with bytes `b` on.
pub open spec fn chars_after(b: Seq<u8>, x: int) -> Seq<char> {
    vstd::utf8::decode_utf8(b.skip(x))
}

/// The line bytes and cursor column after deleting backwards from byte `x`
/// of a line with bytes `b` while the character before the cursor is
/// whitespace (`spaces`) or is not (`!spaces`). The character before the
/// cursor is found by counting `x - 1` characters from the start (as
/// `chars().nth(x - 1)`); `None` where that character is missing or does not
/// start at byte `x - 1`.
pub open spec fn delete_run(b: Seq<u8>, x: int, spaces: bool) -> Option<(Seq<u8>, int)>
    decreases x,
{
    if x <= 0 {
        Some((b, x))
    } else {
        let cs = decode_utf8(b);
        if x - 1 >= cs.len() {
            None
        } else if is_whitespace_char(cs[x - 1]) != spaces {
            Some((b, x))
        } else if !(is_char_boundary(b, x - 1) && x - 1 < b.len()) {
            None
        } else {
            delete_run(cut(b, x - 1, x - 1 + char_width_at(b, x - 1)), x - 1, spaces)
        }
    }
}

proof fn lemma_delete_run_bounds(b: Seq<u8>, x: int, spaces: bool)
    requires
        x >= 0,
        delete_run(b, x, spaces) is Some,
    ensures
        0 <= (delete_run(b, x, spaces)->0).1 <= x,
    decreases x,
{
    if x > 0 {
        let cs = decode_utf8(b);
        if x - 1 < cs.len() && is_whitespace_char(cs[x - 1]) == spaces {
            lemma_delete_run_bounds(cut(b, x - 1, x - 1 + char_width_at(b, x - 1)), x - 1, spaces);
        }
    }
}

/// The line bytes and cursor column after deleting the word before byte
/// `x`: first the whitespace run before the cursor, then the run of other
/// characters before that.
pub open spec fn delete_word_result(b: Seq<u8>, x: int) -> Option<(Seq<u8>, int)> {
    match delete_run(b, x, true) {
        Some(r) => delete_run(r.0, r.1, false),
        None => None,
    }
}

/// The first index of `c` in `s` from `k` on.
pub open spec fn first_index_from(s: Seq<char>, c: char, k: int) -> Option<int>
    decreases s.len() - k,
{
    if k < 0 || k >= s.len() {
        None
    } else if s[k] == c {
        Some(k)
    } else {
        first_index_from(s, c, k + 1)
    }
}

/// The first index of `c` in `s`.
pub open spec fn first_index_of(s: Seq<char>, c: char) -> Option<int> {
    first_index_from(s, c, 0)
}

/// The last index before `k` of a character of `s` that is not a word character.
pub open spec fn last_non_word_before(s: Seq<char>, k: int) -> Option<int>
    decreases k,
{
    if k <= 0 || k > s.len() {
        None
    } else if !is_word_char(s[k - 1]) {
        Some(k - 1)
    } else {
        last_non_word_before(s, k - 1)
    }
}

/// The text a completion puts in: its insert text, or else its label.
pub open spec fn completion_text(item: CompletionItem) -> Seq<char> {
    match item.insert_text {
        Some(t) => t@,
        None => item.label@,
    }
}

/// The completion is a function, method or constructor (LSP kinds 2 to 4).
pub open spec fn is_callable(kind: Option<u32>) -> bool {
    match kind {
        Some(k) => 2 <= k <= 4,
        None => false,
    }
}

/// The text that accepting a completion types: a callable gets `()` unless
/// its text has a parenthesis already.
pub open spec fn inserted_completion(item: CompletionItem) -> Seq<char> {
    let t = completion_text(item);
    if is_callable(item.kind) && first_index_of(t, '(') is None {
        t + seq!['(', ')']
    } else {
        t
    }
}

/// Where the cursor ends within the typed completion (in bytes): just
/// inside the first parenthesis of a callable, else after the text.
pub open spec fn completion_cursor(item: CompletionItem) -> int {
    let t = inserted_completion(item);
    if is_callable(item.kind) {
        bytes_of(t.take(first_index_of(t, '(')->0)).len() + 1int
    } else {
        bytes_of(t).len() as int
    }
}

/// How many characters of the typed completion come before the cursor.
pub open spec fn completion_cursor_chars(item: CompletionItem) -> int {
    let t = inserted_completion(item);
    if is_callable(item.kind) {
        first_index_of(t, '(')->0 + 1
    } else {
        t.len() as int
    }
}

/// How many characters before the cursor stay in front of the completion.
pub open spec fn completion_start_chars(before: Seq<char>) -> int {
    match last_non_word_before(before, before.len() as int) {
        Some(j) => j + 1,
        None => 0,
    }
}

/// The byte column where the word being completed starts in a line whose
/// characters before the cursor are `before`: just after the last character
/// that is not a word character, or the start of the line.
pub open spec fn completion_start(before: Seq<char>) -> int {
    match last_non_word_before(before, before.len() as int) {
        Some(j) => bytes_of(before.take(j)).len() + 1int,
        None => 0,
    }
}

proof fn lemma_first_index_from(s: Seq<char>, c: char, k: int)
    requires
        0 <= k <= s.len(),
    ensures
        first_index_from(s, c, k) matches Some(i) ==> k <= i < s.len() && s[i] == c,
        first_index_from(s, c, k) is None ==> forall|i: int| k <= i < s.len() ==> s[i] != c,
    decreases s.len() - k,
{
    if k < s.len() && s[k] != c {
        lemma_first_index_from(s, c, k + 1);
    }
}

proof fn lemma_first_index_is(s: Seq<char>, c: char, k: int, i: int)
    requires
        0 <= k <= i < s.len(),
        s[i] == c,
        forall|j: int| k <= j < i ==> s[j] != c,
    ensures
        first_index_from(s, c, k) == Some(i),
    decreases i - k,
{
    if k < i {
        lemma_first_index_is(s, c, k + 1, i);
    }
}

pub(crate) proof fn lemma_last_non_word(s: Seq<char>, k: int)
    requires
        0 <= k <= s.len(),
    ensures
        last_non_word_before(s, k) matches Some(j) ==> 0 <= j < k && !is_word_char(s[j]) && forall|i: int|
            j < i < k ==> is_word_char(s[i]),
        last_non_word_before(s, k) is None ==> forall|i: int| 0 <= i < k ==> is_word_char(s[i]),
    decreases k,
{
    if k > 0 && is_word_char(s[k - 1]) {
        lemma_last_non_word(s, k - 1);
    }
}

/// The index of the first `c` in `s`.
fn find_char(s: &str, c: char) -> (r: Option<usize>)
    ensures
        match r {
            Some(i) => first_index_of(s@, c) == Some(i as int),
            None => first_index_of(s@, c) is None,
        },
{
    let n = s.unicode_len();
    let mut i: usize = 0;
    while i < n
        invariant
            n == s@.len(),
            i <= n,
            forall|j: int| 0 <= j < i ==> s@[j] != c,
        decreases n - i,
    {
        if s.get_char(i) == c {
            proof {
                lemma_first_index_is(s@, c, 0, i as int);
            }
            return Some(i);
        }
        i += 1;
    }
    proof {
        lemma_first_index_from(s@, c, 0);
        if first_index_of(s@, c) is Some {
            let w = first_index_of(s@, c)->0;
            assert(s@[w] != c);
        }
    }
    None
}

/// The text that accepting `item` types and the byte offset in it where the
/// cursor goes.
fn completion_insertion(item: &CompletionItem) -> (r: (String, usize))
    ensures
        r.0@ == inserted_completion(*item),
        r.1 == completion_cursor(*item),
        0 <= completion_cursor_chars(*item) <= inserted_completion(*item).len(),
        completion_cursor(*item) == bytes_of(inserted_completion(*item).take(completion_cursor_chars(*item))).len(),
{
    let mut text = match &item.insert_text {
        Some(t) => t.clone(),
        None => item.label.clone(),
    };
    let ghost t0 = text@;
    let callable = match item.kind {
        Some(k) => 2 <= k && k <= 4,
        None => false,
    };
    if callable {
        if find_char(text.as_str(), '(').is_none() {
            text.append("()");
            proof {
                reveal_strlit("()");
                assert("()"@ =~= seq!['(', ')']);
            }
        }
    }
    let ghost t = text@;
    let text_bytes = byte_len(text.as_str());
    proof {
        assert(t.take(t.len() as int) =~= t);
    }
    if callable {
        let found = find_char(text.as_str(), '(');
        proof {
            if first_index_of(t0, '(') is None {
                lemma_first_index_from(t0, '(', 0);
                lemma_first_index_is(t, '(', 0, t0.len() as int);
            }
            lemma_first_index_from(t, '(', 0);
        }
        let i = match found {
            Some(i) => i,
            None => 0,
        };
        let head = text.as_str().substring_char(0, i);
        proof {
            assert(head@ =~= t.take(i as int));
            assert(t =~= t.take(i as int) + t.skip(i as int));
            lemma_encode_concat(t.take(i as int), t.skip(i as int));
            assert(t.skip(i as int) =~= seq!['('] + t.skip(i + 1));
            lemma_encode_concat(seq!['('], t.skip(i + 1));
            lemma_ascii_width('(');
            assert(t.take(i + 1) =~= t.take(i as int) + seq!['(']);
            lemma_encode_concat(t.take(i as int), seq!['(']);
        }
        let offset = byte_len(head) + 1;
        (text, offset)
    } else {
        (text, text_bytes)
    }
}

/// The byte column where the word being completed starts before byte `x`
/// of `line`.
fn completion_word_start(line: &str, x: usize) -> (start: usize)
    requires
        is_boundary(line@, x as int),
        ({
            let before = chars_before(bytes_of(line@), x as int);
            last_non_word_before(before, before.len() as int) matches Some(j) ==> char_bytes(before[j]).len() == 1
        }),
    ensures
        ({
            let before = chars_before(bytes_of(line@), x as int);
            &&& start == completion_start(before)
            &&& 0 <= completion_start_chars(before) <= before.len()
            &&& start == bytes_of(before.take(completion_start_chars(before))).len()
        }),
{
    proof {
        encode_utf8_valid_utf8(line@);
        vstd::utf8::is_char_boundary_start_end_of_seq(bytes_of(line@));
    }
    let head = substring(line, 0, x);
    let ghost before = head@;
    proof {
        encode_utf8_decode_utf8(head@);
        assert(bytes_of(line@).subrange(0, x as int) =~= bytes_of(line@).take(x as int));
    }
    let count = head.as_str().unicode_len();
    let mut k = count;
    while k > 0 && is_word(head.as_str().get_char(k - 1))
        invariant
            before == head@,
            count == before.len(),
            k <= count,
            last_non_word_before(before, k as int) == last_non_word_before(before, count as int),
        decreases k,
    {
        k -= 1;
    }
    proof {
        lemma_last_non_word(before, count as int);
    }
    if k == 0 {
        proof {
            assert(before.take(0) =~= Seq::<char>::empty());
        }
        0
    } else {
        let kept = head.as_str().substring_char(0, k - 1);
        let byte_count = byte_len(head.as_str());
        proof {
            assert(last_non_word_before(before, k as int) == Some(k - 1));
            lemma_ascii_width(before[k - 1]);
            assert(kept@ =~= before.take(k - 1));
            assert(before.take(k as int) =~= before.take(k - 1) + seq![before[k - 1]]);
            lemma_encode_concat(before.take(k - 1), seq![before[k - 1]]);
            assert(before =~= before.take(k as int) + before.skip(k as int));
            lemma_encode_concat(before.take(k as int), before.skip(k as int));
        }
        byte_len(kept) + 1
    }
}

/// The line `line` with the completion `item` typed over the word that
/// ends at byte `x`, and the byte column where the cursor goes.
fn completion_edit(line: &str, x: usize, item: &CompletionItem) -> (r: (String, usize))
    requires
        is_boundary(line@, x as int),
        ({
            let before = chars_before(bytes_of(line@), x as int);
            last_non_word_before(before, before.len() as int) matches Some(j) ==> char_bytes(before[j]).len() == 1
        }),
    ensures
        ({
            let b = bytes_of(line@);
            let start = completion_start(chars_before(b, x as int));
            &&& bytes_of(r.0@) == b.take(start) + bytes_of(inserted_completion(*item)) + b.skip(x as int)
            &&& r.1 == start + completion_cursor(*item)
            &&& is_boundary(r.0@, r.1 as int)
        }),
{
    let (text, offset) = completion_insertion(item);
    let start = completion_word_start(line, x);
    let ghost bl = bytes_of(line@);
    let ghost before = chars_before(bl, x as int);
    let ghost after = decode_utf8(bl.skip(x as int));
    let ghost t = text@;
    let ghost sc = completion_start_chars(before);
    let ghost cc = completion_cursor_chars(*item);
    proof {
        encode_utf8_valid_utf8(line@);
        vstd::utf8::is_char_boundary_start_end_of_seq(bl);
        lemma_boundary_in_range(bl, x as int);
        vstd::utf8::valid_utf8_split(bl, x as int);
        assert(bl.subrange(x as int, bl.len() as int) =~= bl.skip(x as int));
        assert(bl.subrange(0, x as int) =~= bl.take(x as int));
        decode_utf8_encode_utf8(bl.skip(x as int));
        decode_utf8_encode_utf8(bl.take(x as int));
        assert(bl =~= bl.take(x as int) + bl.skip(x as int));
        lemma_encode_concat(before, after);
        lemma_encode_injective(line@, before + after);
        assert(line@ =~= before.take(sc) + (before.skip(sc) + after));
        lemma_prefix_boundary(before.take(sc), before.skip(sc) + after);
        lemma_encode_concat(before.take(sc), before.skip(sc) + after);
    }
    let total = byte_len(line);
    let mut new_line = substring(line, 0, start);
    let tail = substring(line, x, total);
    let ghost p0 = new_line@;
    new_line.append(text.as_str());
    let ghost p1 = new_line@;
    new_line.append(tail.as_str());
    proof {
        lemma_encode_concat(p0, t);
        lemma_encode_concat(p1, tail@);
        assert(bl.subrange(0, start as int) =~= bl.take(start as int));
        assert(bl.subrange(x as int, total as int) =~= bl.skip(x as int));
        assert(bl.take(start as int) =~= bytes_of(before.take(sc)));
        lemma_encode_injective(p0, before.take(sc));
        lemma_encode_injective(tail@, after);
        let pre = before.take(sc);
        assert(t =~= t.take(cc) + t.skip(cc));
        assert(new_line@ =~= (pre + t.take(cc)) + (t.skip(cc) + after));
        lemma_prefix_boundary(pre + t.take(cc), t.skip(cc) + after);
        lemma_encode_concat(pre, t.take(cc));
    }
    // The new line's length, a `usize`, bounds the new cursor column.
    let _line_len = byte_len(new_line.as_str());
    (new_line, start + offset)
}

/// Typing `c` is defined: the cursor stands between two characters, and
/// with a file open (whose notice slices the line at the new cursor) `c`
/// takes one byte.
pub open spec fn can_type(a: App, c: char) -> bool {
    a.cursor_ok() && (a.current_file@.len() > 0 ==> char_bytes(c).len() == 1)
}

/// `b` is `a` after typing `c` (and the closing character of an opening
/// bracket or quote after it), with `n` what the server is told. A new undo
/// step starts unless this continues a run of typing within a word.
pub open spec fn typed(a: App, c: char, b: App, n: Option<ChangeNotice>) -> bool {
    let x = a.cursor.x as int;
    let y = a.cursor.y as int;
    let d1 = with_char_inserted(a.document@, x, y, c);
    let d2 = match closing_of(c) {
        Some(k) => with_char_inserted(d1, x + 1, y, k),
        None => d1,
    };
    &&& b.document@ == d2
    &&& b.cursor == (Cursor { x: (x + 1) as usize, y: y as usize })
    &&& edited(a, b, a.last_action != ActionKind::Insert || (at_word_start(a, c) && !is_whitespace_char(c)), ActionKind::Insert)
    &&& App::change_notice_ok(with_text_of(a, b), n, !is_whitespace_char(c))
}

/// `b` is `a` with four spaces typed at the cursor and the cursor past them
/// (no undo step, no notice).
pub open spec fn tabbed(a: App, b: App) -> bool {
    &&& b.document@ == a.document@.update(
        a.cursor.y as int,
        splice(a.document@[a.cursor.y as int], a.cursor.x as int, seq![32u8, 32u8, 32u8, 32u8]),
    )
    &&& b == (App { document: b.document, cursor: Cursor { x: (a.cursor.x + 4) as usize, y: a.cursor.y }, ..a })
}

/// `b` is `a` with the line broken at the cursor and the cursor at the start
/// of the new line, as an undo step of its own; `n` is what the server is told.
pub open spec fn broke_line(a: App, b: App, n: Option<ChangeNotice>) -> bool {
    &&& b.document@ == with_line_split(a.document@, a.cursor.x as int, a.cursor.y as int)
    &&& b.cursor == (Cursor { x: 0, y: (a.cursor.y + 1) as usize })
    &&& edited(a, b, true, ActionKind::Newline)
    &&& App::change_notice_ok(with_text_of(a, b), n, false)
}

/// Backspace is defined: the character before the cursor starts on a
/// boundary, the line above exists at the start of a line, and with a file
/// open there is a line to take the notice from.
pub open spec fn can_backspace(a: App) -> bool {
    &&& a.cursor.x > 0 ==> a.document.is_position(a.cursor.x - 1, a.cursor.y as int)
        && a.cursor.x - 1 < a.document@[a.cursor.y as int].len()
    &&& a.cursor.x == 0 && a.cursor.y > 0 ==> a.cursor.y < a.document@.len()
    &&& a.current_file@.len() > 0 && a.cursor.x == 0 && a.cursor.y == 0 ==> a.document@.len() > 0
}

/// `b` is `a` after backspace: the character before the cursor goes, or at
/// the start of a line the line joins the one above, or at the very start
/// nothing changes but the bookkeeping. A run of backspaces is one undo step.
pub open spec fn backspaced(a: App, b: App, n: Option<ChangeNotice>) -> bool {
    let x = a.cursor.x as int;
    let y = a.cursor.y as int;
    &&& x > 0 ==> b.document@ == with_char_removed(a.document@, x - 1, y)
        && b.cursor == (Cursor { x: (x - 1) as usize, y: y as usize })
    &&& x == 0 && y > 0 ==> b.document@ == with_line_joined_up(a.document@, y)
        && b.cursor == (Cursor { x: a.document@[y - 1].len() as usize, y: (y - 1) as usize })
    &&& x == 0 && y == 0 ==> b.document@ == a.document@ && b.cursor == a.cursor
    &&& edited(a, b, a.last_action != ActionKind::Delete, ActionKind::Delete)
    &&& App::change_notice_ok(with_text_of(a, b), n, false)
}

/// `b` is `a` with the cursor at `c`, no edit in progress and no hover.
pub open spec fn moved_to(a: App, c: Cursor, b: App) -> bool {
    b == (App {
        cursor: c,
        last_action: ActionKind::Idle,
        hover: None,
        hover_pending: None,
        hover_position: None,
        ..a
    })
}

/// The line above the cursor (or the first line) exists.
pub open spec fn can_move_up(a: App) -> bool {
    (if a.cursor.y > 0 { a.cursor.y - 1 } else { 0 }) < a.document@.len()
}

/// `b` is `a` with the cursor a line up, at the same column or the end of
/// that line if it is shorter.
pub open spec fn moved_up(a: App, b: App) -> bool {
    let y = if a.cursor.y > 0 { (a.cursor.y - 1) as usize } else { 0usize };
    let len = a.document@[y as int].len();
    moved_to(a, Cursor { x: if a.cursor.x <= len { a.cursor.x } else { len as usize }, y }, b)
}

/// `b` is `a` with the cursor a line down when there is one, at the same
/// column or the end of that line if it is shorter.
pub open spec fn moved_down(a: App, b: App) -> bool {
    let c = if a.cursor.y + 1 < a.document@.len() {
        let y = (a.cursor.y + 1) as usize;
        let len = a.document@[y as int].len();
        Cursor { x: if a.cursor.x <= len { a.cursor.x } else { len as usize }, y }
    } else {
        a.cursor
    };
    moved_to(a, c, b)
}

/// Moving left is defined: the line above exists at the start of a line,
/// and a word move starts between two characters.
pub open spec fn can_move_left(a: App, ctrl: bool) -> bool {
    &&& a.cursor.x == 0 && a.cursor.y > 0 ==> a.cursor.y - 1 < a.document@.len()
    &&& a.cursor.x > 0 && ctrl ==> a.cursor_ok()
}

/// `b` is `a` with the cursor one byte (with `ctrl` one word) to the left,
/// or from the start of a line at the end of the line above.
pub open spec fn moved_left(a: App, ctrl: bool, b: App) -> bool {
    let x = a.cursor.x as int;
    let y = a.cursor.y as int;
    let c = if x == 0 {
        if y > 0 {
            Cursor { x: a.document@[y - 1].len() as usize, y: (y - 1) as usize }
        } else {
            a.cursor
        }
    } else if ctrl {
        let before = chars_before(a.document@[y], x);
        Cursor { x: bytes_of(before.take(word_left_chars(before))).len() as usize, y: y as usize }
    } else {
        Cursor { x: (x - 1) as usize, y: y as usize }
    };
    moved_to(a, c, b)
}

/// Moving right is defined: the cursor's line exists, and a word move
/// inside the line starts between two characters.
pub open spec fn can_move_right(a: App, ctrl: bool) -> bool {
    &&& a.cursor.y < a.document@.len()
    &&& ctrl && a.cursor.x < a.document@[a.cursor.y as int].len() ==> a.cursor_ok()
}

/// `b` is `a` with the cursor one byte (with `ctrl` one word) to the right,
/// or from the end of a line at the start of the line below.
pub open spec fn moved_right(a: App, ctrl: bool, b: App) -> bool {
    let x = a.cursor.x as int;
    let y = a.cursor.y as int;
    let len = a.document@[y].len();
    let next_line = if y + 1 < a.document@.len() {
        Cursor { x: 0, y: (y + 1) as usize }
    } else {
        a.cursor
    };
    let c = if ctrl {
        if x >= len {
            next_line
        } else {
            let after = chars_after(a.document@[y], x);
            Cursor { x: (x + bytes_of(after.take(word_right_chars(after))).len()) as usize, y: y as usize }
        }
    } else if x < len {
        Cursor { x: (x + 1) as usize, y: y as usize }
    } else {
        next_line
    };
    moved_to(a, c, b)
}

/// Deleting the word before the cursor is defined: every character it
/// reads starts on a boundary, and with a file open the cursor ends on one.
pub open spec fn can_delete_word(a: App) -> bool {
    &&& a.cursor.y < a.document@.len()
    &&& delete_word_result(a.document@[a.cursor.y as int], a.cursor.x as int) is Some
    &&& a.current_file@.len() > 0 ==> ({
        let r = delete_word_result(a.document@[a.cursor.y as int], a.cursor.x as int)->0;
        is_char_boundary(r.0, r.1)
    })
}

/// `b` is `a` with the word before the cursor deleted (whitespace right
/// before it, then the characters up to the next whitespace). A run of
/// deletions is one undo step.
pub open spec fn deleted_word(a: App, b: App, n: Option<ChangeNotice>) -> bool {
    let r = delete_word_result(a.document@[a.cursor.y as int], a.cursor.x as int)->0;
    &&& b.document@ == a.document@.update(a.cursor.y as int, r.0)
    &&& b.cursor == (Cursor { x: r.1 as usize, y: a.cursor.y })
    &&& edited(a, b, a.last_action != ActionKind::Delete, ActionKind::Delete)
    &&& App::change_notice_ok(with_text_of(a, b), n, false)
}

/// Accepting a completion is defined: the cursor stands between two
/// characters, and the character that ends the typed word takes one byte.
pub open spec fn can_accept_completion(a: App) -> bool {
    &&& a.cursor_ok()
    &&& a.completion_selected < a.completions@.len() ==> ({
        let before = chars_before(a.document@[a.cursor.y as int], a.cursor.x as int);
        last_non_word_before(before, before.len() as int) matches Some(j) ==> char_bytes(before[j]).len() == 1
    })
}

/// `b` is `a` with the selected completion typed over the word being typed,
/// the cursor placed (inside the parentheses of a callable) and the list
/// closed; with no selected item nothing changes.
pub open spec fn accepted_completion(a: App, b: App, n: Option<ChangeNotice>) -> bool {
    let x = a.cursor.x as int;
    let y = a.cursor.y as int;
    if a.completion_selected >= a.completions@.len() {
        b == a && n is None
    } else {
        let item = a.completions@[a.completion_selected as int];
        let start = completion_start(chars_before(a.document@[y], x));
        &&& b.document@ == a.document@.update(
            y,
            a.document@[y].take(start) + bytes_of(inserted_completion(item)) + a.document@[y].skip(x),
        )
        &&& b.cursor == (Cursor { x: (start + completion_cursor(item)) as usize, y: y as usize })
        &&& App::after_change(App { document: b.document, cursor: b.cursor, ..a }, b)
        &&& App::change_notice_ok(with_text_of(a, b), n, false)
    }
}

impl App {
    /// Types `c` at the cursor (with its closing character after it, for an
    /// opening bracket or quote) and moves past it. A new undo step starts
    /// unless this continues a run of typing within a word.
    #[verifier::rlimit(80)]
    pub fn type_char(&mut self, c: char) -> (n: Option<ChangeNotice>)
        requires
            can_type(*old(self), c),
        ensures
            typed(*old(self), c, *final(self), n),
    {
        let x = self.cursor.x;
        let y = self.cursor.y;
        let ws = is_whitespace(c);
        let at_start = if ws || x == 0 {
            true
        } else {
            let line = self.document.lines[y].as_str();
            if x - 1 < line.unicode_len() {
                is_whitespace(line.get_char(x - 1))
            } else {
                true
            }
        };
        if self.last_action != ActionKind::Insert || (at_start && !ws) {
            self.push_undo();
        }
        let ghost line0 = self.document.lines@[y as int]@;
        let ghost d0 = self.document@;
        assert(d0[y as int] == bytes_of(line0));
        self.document.insert_char(x, y, c);
        assert(self.document@.len() == self.document.lines@.len());
        assert(self.document@[y as int] == bytes_of(self.document.lines@[y as int]@));
        // The line's new length, a `usize`, bounds the cursor's new column.
        let _line_len = byte_len(self.document.lines[y].as_str());
        proof {
            lemma_splice_boundaries(line0, x as int, seq![c], self.document.lines@[y as int]@);
            lemma_char_bytes(c);
            lemma_ascii_width(c);
        }
        self.cursor.x = x + 1;
        match closing_char(c) {
            Some(k) => {
                let ghost line1 = self.document.lines@[y as int]@;
                self.document.insert_char(x + 1, y, k);
                assert(self.document@.len() == self.document.lines@.len());
                assert(self.document@[y as int] == bytes_of(self.document.lines@[y as int]@));
                proof {
                    lemma_splice_boundaries(line1, x + 1, seq![k], self.document.lines@[y as int]@);
                }
            },
            None => {},
        }
        let n = self.document_changed(!ws);
        self.last_action = ActionKind::Insert;
        n
    }

    /// Puts four spaces at the cursor and moves past them.
    pub fn insert_tab(&mut self)
        requires
            old(self).cursor_ok(),
        ensures
            tabbed(*old(self), *final(self)),
    {
        let x = self.cursor.x;
        let y = self.cursor.y;
        let ghost d = self.document@;
        let mut i: usize = 0;
        proof {
            lemma_ascii_char_bytes();
            encode_utf8_valid_utf8(self.document.lines@[y as int]@);
            assert(d[y as int] == bytes_of(self.document.lines@[y as int]@));
            lemma_boundary_in_range(d[y as int], x as int);
            assert(splice(d[y as int], x as int, Seq::new(0, |j: int| 32u8)) =~= d[y as int]);
            assert(d =~= d.update(y as int, splice(d[y as int], x as int, Seq::new(0, |j: int| 32u8))));
        }
        while i < 4
            invariant
                i <= 4,
                x == old(self).cursor.x,
                y == old(self).cursor.y,
                d == old(self).document@,
                char_bytes(' ') == seq![32u8],
                x <= d[y as int].len(),
                y < d.len(),
                self.document@ == d.update(y as int, splice(d[y as int], x as int, Seq::new(i as nat, |j: int| 32u8))),
                self.document.is_position(x as int, y as int),
                *self == (App { document: self.document, ..*old(self) }),
            decreases 4 - i,
        {
            let ghost line = self.document.lines@[y as int]@;
            let ghost before = self.document@;
            self.document.insert_char(x, y, ' ');
            proof {
                assert(self.document@.len() == self.document.lines@.len());
                assert(self.document@[y as int] == bytes_of(self.document.lines@[y as int]@));
                assert(before[y as int] == bytes_of(line));
                lemma_splice_boundaries(line, x as int, seq![' '], self.document.lines@[y as int]@);
                assert(splice(splice(d[y as int], x as int, Seq::new(i as nat, |j: int| 32u8)), x as int, seq![32u8])
                    =~= splice(d[y as int], x as int, Seq::new((i + 1) as nat, |j: int| 32u8)));
                assert(self.document@ =~= d.update(y as int, splice(d[y as int], x as int, Seq::new((i + 1) as nat, |j: int| 32u8))));
            }
            i += 1;
        }
        // The line's new length, a `usize`, bounds the cursor's new column.
        let _line_len = byte_len(self.document.lines[y].as_str());
        proof {
            assert(Seq::new(4, |j: int| 32u8) =~= seq![32u8, 32u8, 32u8, 32u8]);
            assert(self.document@[y as int] == bytes_of(self.document.lines@[y as int]@));
        }
        self.cursor.x = x + 4;
    }

    /// Breaks the line at the cursor and moves to the start of the new line,
    /// as a step of its own for undo.
    #[verifier::rlimit(80)]
    pub fn new_line(&mut self) -> (n: Option<ChangeNotice>)
        requires
            old(self).cursor_ok(),
        ensures
            broke_line(*old(self), *final(self), n),
    {
        self.push_undo();
        let x = self.cursor.x;
        let y = self.cursor.y;
        self.document.split_line(x, y);
        // The number of lines, a `usize`, bounds the cursor's new line.
        let _line_count = self.document.lines.len();
        proof {
            assert(self.document@.len() == self.document.lines@.len());
            assert(self.document@[y + 1] == bytes_of(self.document.lines@[y + 1]@));
            encode_utf8_valid_utf8(self.document.lines@[y + 1]@);
            is_char_boundary_start_end_of_seq(bytes_of(self.document.lines@[y + 1]@));
        }
        self.cursor.y = y + 1;
        self.cursor.x = 0;
        let n = self.document_changed(false);
        self.last_action = ActionKind::Newline;
        n
    }

    /// Backspace at the cursor: deletes the character before it, or joins
    /// the line onto the one above at the start of a line. A run of
    /// backspaces is one undo step.
    #[verifier::rlimit(80)]
    pub fn backspace_key(&mut self) -> (n: Option<ChangeNotice>)
        requires
            can_backspace(*old(self)),
        ensures
            backspaced(*old(self), *final(self), n),
    {
        if self.last_action != ActionKind::Delete {
            self.push_undo();
        }
        let x0 = self.cursor.x;
        let y0 = self.cursor.y;
        let ghost d = self.document@;
        let (x, y) = self.document.backspace(x0, y0);
        proof {
            assert(self.document@.len() == self.document.lines@.len());
            if x0 > 0 {
                let line = old(self).document.lines@[y0 as int]@;
                let new_line = self.document.lines@[y0 as int]@;
                assert(self.document@[y0 as int] == bytes_of(new_line));
                assert(d[y0 as int] == bytes_of(line));
                crate::editor::laws::lemma_removal_keeps_boundary(line, (x0 - 1) as int, new_line);
            } else if y0 > 0 {
                assert(self.document@[y0 - 1] == bytes_of(self.document.lines@[y0 - 1]@));
                encode_utf8_valid_utf8(self.document.lines@[y0 - 1]@);
                is_char_boundary_start_end_of_seq(bytes_of(self.document.lines@[y0 - 1]@));
                assert(self.document@[y0 - 1] == d[y0 - 1] + d[y0 as int]);
                assert(x as int == d[y0 - 1].len());
                assert(d[y0 - 1] == bytes_of(old(self).document.lines@[y0 - 1]@));
                assert(self.document.is_position(d[y0 - 1].len() as int, y0 - 1)) by {
                    crate::text::lemma_encode_concat(old(self).document.lines@[y0 - 1]@, old(self).document.lines@[y0 as int]@);
                    crate::text::lemma_encode_injective(
                        self.document.lines@[y0 - 1]@,
                        old(self).document.lines@[y0 - 1]@ + old(self).document.lines@[y0 as int]@,
                    );
                    crate::text::lemma_prefix_boundary(old(self).document.lines@[y0 - 1]@, old(self).document.lines@[y0 as int]@);
                }
            } else if old(self).current_file@.len() > 0 {
                assert(self.document@[0] == bytes_of(self.document.lines@[0]@));
                encode_utf8_valid_utf8(self.document.lines@[0]@);
                is_char_boundary_start_end_of_seq(bytes_of(self.document.lines@[0]@));
            }
        }
        self.cursor.x = x;
        self.cursor.y = y;
        let n = self.document_changed(false);
        self.last_action = ActionKind::Delete;
        n
    }

    /// Moves the cursor a line up, to the same column or the end of that
    /// line if it is shorter.
    pub fn move_up(&mut self)
        requires
            can_move_up(*old(self)),
        ensures
            moved_up(*old(self), *final(self)),
    {
        self.clear_hover();
        self.cursor.y = self.cursor.y.saturating_sub(1);
        let len = byte_len(self.document.lines[self.cursor.y].as_str());
        proof {
            assert(self.document@[self.cursor.y as int] == bytes_of(self.document.lines@[self.cursor.y as int]@));
        }
        self.cursor.x = if self.cursor.x <= len { self.cursor.x } else { len };
        self.last_action = ActionKind::Idle;
    }

    /// Moves the cursor a line down when there is one, to the same column or
    /// the end of that line if it is shorter.
    pub fn move_down(&mut self)
        requires
            old(self).cursor.y < usize::MAX,
        ensures
            moved_down(*old(self), *final(self)),
    {
        self.clear_hover();
        if self.cursor.y + 1 < self.document.lines.len() {
            self.cursor.y += 1;
            let len = byte_len(self.document.lines[self.cursor.y].as_str());
            proof {
                assert(self.document@[self.cursor.y as int] == bytes_of(self.document.lines@[self.cursor.y as int]@));
            }
            self.cursor.x = if self.cursor.x <= len { self.cursor.x } else { len };
        }
        self.last_action = ActionKind::Idle;
    }

    /// The byte column one word to the left of byte `idx` of `line`.
    pub fn word_left(line: &str, idx: usize) -> (x: usize)
        requires
            is_boundary(line@, idx as int),
        ensures
            x == bytes_of(chars_before(bytes_of(line@), idx as int).take(
                word_left_chars(chars_before(bytes_of(line@), idx as int)),
            )).len(),
    {
        proof {
            encode_utf8_valid_utf8(line@);
            vstd::utf8::is_char_boundary_start_end_of_seq(bytes_of(line@));
        }
        let head = substring(line, 0, idx);
        let ghost s = head@;
        proof {
            encode_utf8_decode_utf8(head@);
            assert(bytes_of(line@).subrange(0, idx as int) =~= bytes_of(line@).take(idx as int));
        }
        let n = head.as_str().unicode_len();
        let mut k = n;
        while k > 0 && is_whitespace(head.as_str().get_char(k - 1))
            invariant
                s == head@,
                n == s.len(),
                k <= n,
                ws_run_start(s, k as int) == ws_run_start(s, n as int),
            decreases k,
        {
            k -= 1;
        }
        proof {
            lemma_ws_run_start_bounds(s, n as int);
        }
        if k > 0 {
            let word = is_word(head.as_str().get_char(k - 1));
            let ghost start = k;
            while k > 0 && in_class_run(head.as_str(), k - 1, word)
                invariant
                    s == head@,
                    n == s.len(),
                    k <= start <= n,
                    start > 0,
                    start == ws_run_start(s, n as int),
                    word == is_word_char(s[start - 1]),
                    class_run_start(s, k as int, word) == class_run_start(s, start as int, word),
                decreases k,
            {
                k -= 1;
            }
        }
        let kept = head.as_str().substring_char(0, k);
        proof {
            assert(s.take(k as int) =~= s.subrange(0, k as int));
        }
        byte_len(kept)
    }

    /// The byte column one word to the right of byte `idx` of `line`.
    pub fn word_right(line: &str, idx: usize) -> (x: usize)
        requires
            is_boundary(line@, idx as int),
        ensures
            x == idx + bytes_of(chars_after(bytes_of(line@), idx as int).take(
                word_right_chars(chars_after(bytes_of(line@), idx as int)),
            )).len(),
    {
        proof {
            encode_utf8_valid_utf8(line@);
            vstd::utf8::is_char_boundary_start_end_of_seq(bytes_of(line@));
            lemma_boundary_in_range(bytes_of(line@), idx as int);
        }
        let total = byte_len(line);
        let rest = substring(line, idx, total);
        let ghost s = rest@;
        proof {
            encode_utf8_decode_utf8(rest@);
            assert(bytes_of(line@).subrange(idx as int, total as int) =~= bytes_of(line@).skip(idx as int));
        }
        let n = rest.as_str().unicode_len();
        let mut k: usize = 0;
        while k < n && is_whitespace(rest.as_str().get_char(k))
            invariant
                s == rest@,
                n == s.len(),
                k <= n,
                ws_run_end(s, k as int) == ws_run_end(s, 0),
            decreases n - k,
        {
            k += 1;
        }
        proof {
            lemma_ws_run_end_bounds(s, 0);
        }
        if k < n {
            let word = is_word(rest.as_str().get_char(k));
            let ghost start = k;
            while k < n && in_class_run(rest.as_str(), k, word)
                invariant
                    s == rest@,
                    n == s.len(),
                    start <= k <= n,
                    start < n,
                    start == ws_run_end(s, 0),
                    word == is_word_char(s[start as int]),
                    class_run_end(s, k as int, word) == class_run_end(s, start as int, word),
                decreases n - k,
            {
                k += 1;
            }
        }
        let passed = rest.as_str().substring_char(0, k);
        proof {
            assert(s.take(k as int) =~= s.subrange(0, k as int));
            lemma_encode_concat(s.take(k as int), s.skip(k as int));
            assert(s =~= s.take(k as int) + s.skip(k as int));
        }
        idx + byte_len(passed)
    }

    /// Moves the cursor left: one byte, or with `ctrl` one word, and from
    /// the start of a line to the end of the line above.
    pub fn move_left(&mut self, ctrl: bool)
        requires
            can_move_left(*old(self), ctrl),
        ensures
            moved_left(*old(self), ctrl, *final(self)),
    {
        self.clear_hover();
        if self.cursor.x == 0 {
            if self.cursor.y > 0 {
                self.cursor.y -= 1;
                let len = byte_len(self.document.lines[self.cursor.y].as_str());
                proof {
                    assert(self.document@[self.cursor.y as int] == bytes_of(self.document.lines@[self.cursor.y as int]@));
                }
                self.cursor.x = len;
            }
        } else if ctrl {
            let y = self.cursor.y;
            proof {
                assert(self.document@[y as int] == bytes_of(self.document.lines@[y as int]@));
            }
            self.cursor.x = App::word_left(self.document.lines[y].as_str(), self.cursor.x);
        } else {
            self.cursor.x -= 1;
        }
        self.last_action = ActionKind::Idle;
    }

    /// Moves the cursor right: one byte, or with `ctrl` one word, and from
    /// the end of a line to the start of the line below.
    #[verifier::rlimit(40)]
    pub fn move_right(&mut self, ctrl: bool)
        requires
            can_move_right(*old(self), ctrl),
        ensures
            moved_right(*old(self), ctrl, *final(self)),
    {
        self.clear_hover();
        let y = self.cursor.y;
        let count = self.document.lines.len();
        let line_length = byte_len(self.document.lines[y].as_str());
        proof {
            assert(self.document@[y as int] == bytes_of(self.document.lines@[y as int]@));
        }
        if ctrl {
            if self.cursor.x >= line_length {
                if y + 1 < count {
                    self.cursor.y = y + 1;
                    self.cursor.x = 0;
                }
            } else {
                self.cursor.x = App::word_right(self.document.lines[y].as_str(), self.cursor.x);
            }
        } else if self.cursor.x < line_length {
            self.cursor.x += 1;
        } else if y + 1 < count {
            self.cursor.y = y + 1;
            self.cursor.x = 0;
        }
        self.last_action = ActionKind::Idle;
    }

    /// Deletes backwards while the character before the cursor is (or, with
    /// `spaces` false, is not) whitespace.
    fn delete_run_exec(&mut self, spaces: bool)
        requires
            old(self).cursor.y < old(self).document@.len(),
            delete_run(old(self).document@[old(self).cursor.y as int], old(self).cursor.x as int, spaces) is Some,
        ensures
            ({
                let a = *old(self);
                let r = delete_run(a.document@[a.cursor.y as int], a.cursor.x as int, spaces)->0;
                &&& final(self).document@ == a.document@.update(a.cursor.y as int, r.0)
                &&& final(self).cursor == (Cursor { x: r.1 as usize, y: a.cursor.y })
                &&& *final(self) == (App { document: final(self).document, cursor: final(self).cursor, ..a })
            }),
    {
        let y = self.cursor.y;
        let ghost d = self.document@;
        let ghost target = delete_run(d[y as int], self.cursor.x as int, spaces);
        proof {
            assert(d =~= d.update(y as int, d[y as int]));
        }
        while self.cursor.x > 0
            invariant
                self.cursor.y == y,
                y < d.len(),
                d == old(self).document@,
                self.document@.len() == d.len(),
                self.document@ == d.update(y as int, self.document@[y as int]),
                target == delete_run(d[y as int], old(self).cursor.x as int, spaces),
                delete_run(self.document@[y as int], self.cursor.x as int, spaces) == target,
                target is Some,
                *self == (App { document: self.document, cursor: self.cursor, ..*old(self) }),
            ensures
                target == Some((self.document@[y as int], self.cursor.x as int)),
            decreases self.cursor.x,
        {
            let x = self.cursor.x;
            proof {
                assert(self.document@[y as int] == bytes_of(self.document.lines@[y as int]@));
                encode_utf8_decode_utf8(self.document.lines@[y as int]@);
            }
            let ch = self.document.lines[y].as_str().get_char(x - 1);
            if is_whitespace(ch) != spaces {
                break;
            }
            let ghost before = self.document@;
            let (nx, ny) = self.document.backspace(x, y);
            proof {
                assert(self.document@ =~= d.update(y as int, self.document@[y as int]));
            }
            self.cursor.x = nx;
            self.cursor.y = ny;
        }
    }

    /// Deletes the word before the cursor (any whitespace right before it,
    /// then the characters before that up to the next whitespace). A run of
    /// deletions is one undo step.
    #[verifier::rlimit(100)]
    #[verifier::spinoff_prover]
    pub fn delete_word_before_cursor(&mut self) -> (n: Option<ChangeNotice>)
        requires
            can_delete_word(*old(self)),
        ensures
            deleted_word(*old(self), *final(self), n),
    {
        if self.last_action != ActionKind::Delete {
            self.push_undo();
        }
        proof {
            lemma_delete_run_bounds(self.document@[self.cursor.y as int], self.cursor.x as int, true);
        }
        self.delete_run_exec(true);
        proof {
            lemma_delete_run_bounds(self.document@[self.cursor.y as int], self.cursor.x as int, false);
        }
        self.delete_run_exec(false);
        proof {
            assert(self.document@.len() == self.document.lines@.len());
            assert(self.document@[self.cursor.y as int] == bytes_of(self.document.lines@[self.cursor.y as int]@));
        }
        let n = self.document_changed(false);
        self.last_action = ActionKind::Delete;
        proof {
            let a = *old(self);
            let r = delete_word_result(a.document@[a.cursor.y as int], a.cursor.x as int)->0;
            assert(self.document@ == a.document@.update(a.cursor.y as int, r.0));
            assert(self.cursor == (Cursor { x: r.1 as usize, y: a.cursor.y }));
            assert(edited(a, *self, a.last_action != ActionKind::Delete, ActionKind::Delete));
            assert(App::change_notice_ok(with_text_of(a, *self), n, false));
        }
        n
    }


    /// Types the selected completion over the word being typed, places the
    /// cursor (inside the parentheses of a callable) and closes the list.
    pub fn accept_completion(&mut self) -> (n: Option<ChangeNotice>)
        requires
            can_accept_completion(*old(self)),
        ensures
            accepted_completion(*old(self), *final(self), n),
    {
        if self.completion_selected >= self.completions.len() {
            return None;
        }
        let y = self.cursor.y;
        proof {
            assert(self.document@[y as int] == bytes_of(self.document.lines@[y as int]@));
        }
        let (new_line, x) = completion_edit(
            self.document.lines[y].as_str(),
            self.cursor.x,
            &self.completions[self.completion_selected],
        );
        let ghost d = self.document@;
        self.document.lines.set(y, new_line);
        self.cursor.x = x;
        self.completions.clear();
        proof {
            assert(self.document@ =~= d.update(y as int, bytes_of(self.document.lines@[y as int]@)));
        }
        self.document_changed(false)
    }
}

/// The cursor is on a line of the text, at most at its end.
pub open spec fn cursor_in_text(a: App) -> bool {
    a.cursor.y < a.document@.len() && a.cursor.x <= a.document@[a.cursor.y as int].len()
}

/// The bytes of the characters of a valid prefix or suffix of a line are
/// that prefix or suffix.
proof fn lemma_line_parts(a: App)
    requires
        a.cursor_ok(),
    ensures
        bytes_of(chars_before(a.document@[a.cursor.y as int], a.cursor.x as int)) == a.document@[a.cursor.y as int].take(
            a.cursor.x as int,
        ),
        bytes_of(chars_after(a.document@[a.cursor.y as int], a.cursor.x as int)) == a.document@[a.cursor.y as int].skip(
            a.cursor.x as int,
        ),
{
    let y = a.cursor.y as int;
    let x = a.cursor.x as int;
    let b = a.document@[y];
    assert(b == bytes_of(a.document.lines@[y]@));
    encode_utf8_valid_utf8(a.document.lines@[y]@);
    valid_utf8_split(b, x);
    assert(b.take(x) =~= b.subrange(0, x));
    assert(b.skip(x) =~= b.subrange(x, b.len() as int));
    decode_utf8_encode_utf8(b.take(x));
    decode_utf8_encode_utf8(b.skip(x));
}

/// Each arrow move leaves the cursor on the text and the text as it was.
pub proof fn lemma_moves_stay_in_text(a: App, b: App, up: bool, down: bool, left: bool, ctrl: bool)
    requires
        cursor_in_text(a),
        ctrl && !up && !down ==> a.cursor_ok(),
        up ==> moved_up(a, b),
        down ==> moved_down(a, b),
        !up && !down && left ==> moved_left(a, ctrl, b),
        !up && !down && !left ==> moved_right(a, ctrl, b),
    ensures
        cursor_in_text(b),
        b.document == a.document,
{
    if !up && !down && ctrl && a.cursor.x > 0 && left {
        lemma_line_parts(a);
        let before = chars_before(a.document@[a.cursor.y as int], a.cursor.x as int);
        let w = word_left_chars(before);
        lemma_ws_run_start_bounds(before, before.len() as int);
        let k = ws_run_start(before, before.len() as int);
        if k > 0 {
            lemma_class_run_start_bounds(before, k, is_word_char(before[k - 1]));
        }
        assert(before =~= before.take(w) + before.skip(w));
        lemma_encode_concat(before.take(w), before.skip(w));
    }
    if !up && !down && ctrl && !left && a.cursor.x < a.document@[a.cursor.y as int].len() {
        lemma_line_parts(a);
        let after = chars_after(a.document@[a.cursor.y as int], a.cursor.x as int);
        let w = word_right_chars(after);
        lemma_ws_run_end_bounds(after, 0);
        let k = ws_run_end(after, 0);
        if k < after.len() {
            lemma_class_run_end_bounds(after, k, is_word_char(after[k]));
        }
        assert(after =~= after.take(w) + after.skip(w));
        lemma_encode_concat(after.take(w), after.skip(w));
    }
}

/// Deleting a run backwards stops at the start of the line or where the
/// character before the cursor (counted as `chars().nth` counts) is no
/// longer of the run's kind, and never moves the cursor right.
proof fn lemma_delete_run_stops(b: Seq<u8>, x: int, spaces: bool)
    requires
        x >= 0,
        delete_run(b, x, spaces) is Some,
    ensures
        ({
            let (nb, nx) = delete_run(b, x, spaces)->0;
            &&& 0 <= nx <= x
            &&& nx == 0 || (nx - 1 < decode_utf8(nb).len() && is_whitespace_char(decode_utf8(nb)[nx - 1]) != spaces)
        }),
    decreases x,
{
    if x > 0 {
        let cs = decode_utf8(b);
        if x - 1 < cs.len() && is_whitespace_char(cs[x - 1]) == spaces {
            lemma_delete_run_stops(cut(b, x - 1, x - 1 + char_width_at(b, x - 1)), x - 1, spaces);
        }
    }
}

/// Deleting the word before the cursor (Ctrl+Backspace) first takes the
/// whitespace just before the cursor, then the characters before that up
/// to the previous whitespace: the cursor ends at the start of the line or
/// just after a whitespace character, never to the right of where it was;
/// and after the whitespace run is gone the character before the cursor is
/// not whitespace (so the word part that follows is deleted).
pub proof fn law_delete_word_stops_at_whitespace(b: Seq<u8>, x: int)
    requires
        x >= 0,
        delete_word_result(b, x) is Some,
    ensures
        ({
            let mid = delete_run(b, x, true)->0;
            let (nb, nx) = delete_word_result(b, x)->0;
            &&& 0 <= nx <= mid.1 <= x
            &&& mid.1 == 0 || (mid.1 - 1 < decode_utf8(mid.0).len() && !is_whitespace_char(decode_utf8(mid.0)[mid.1 - 1]))
            &&& nx == 0 || (nx - 1 < decode_utf8(nb).len() && is_whitespace_char(decode_utf8(nb)[nx - 1]))
        }),
{
    lemma_delete_run_stops(b, x, true);
    let mid = delete_run(b, x, true)->0;
    lemma_delete_run_stops(mid.0, mid.1, false);
}

/// After deleting the word before the cursor, the cursor is on the same
/// line, no further right, and at the start of the line or just after a
/// whitespace character of the new line.
pub proof fn law_deleted_word_ends_after_whitespace(a: App, b: App, n: Option<ChangeNotice>)
    requires
        can_delete_word(a),
        deleted_word(a, b, n),
    ensures
        b.cursor.y == a.cursor.y,
        b.cursor.x <= a.cursor.x,
        b.cursor.x == 0 || ({
            let cs = decode_utf8(b.document@[b.cursor.y as int]);
            b.cursor.x - 1 < cs.len() && is_whitespace_char(cs[b.cursor.x - 1])
        }),
{
    law_delete_word_stops_at_whitespace(a.document@[a.cursor.y as int], a.cursor.x as int);
}

/// Looking back from `k` for a character that is not a word character
/// finds the last one before `k`, if there is one.
proof fn lemma_last_non_word_before(s: Seq<char>, k: int)
    requires
        0 <= k <= s.len(),
    ensures
        last_non_word_before(s, k) matches Some(j) ==> 0 <= j < k && !is_word_char(s[j]) && forall|i: int|
            j < i < k ==> is_word_char(#[trigger] s[i]),
        last_non_word_before(s, k) is None ==> forall|i: int| 0 <= i < k ==> is_word_char(#[trigger] s[i]),
    decreases k,
{
    if k > 0 && is_word_char(s[k - 1]) {
        lemma_last_non_word_before(s, k - 1);
    }
}

/// The word being completed is the run of word characters (letters,
/// digits, `_`) just before the cursor: it starts at the beginning of the
/// line or just after a character that is not a word character.
pub proof fn law_completed_word_is_trailing_word(before: Seq<char>)
    ensures
        0 <= completion_start_chars(before) <= before.len(),
        forall|i: int| completion_start_chars(before) <= i < before.len() ==> is_word_char(#[trigger] before[i]),
        completion_start_chars(before) == 0 || !is_word_char(before[completion_start_chars(before) - 1]),
{
    lemma_last_non_word_before(before, before.len() as int);
}

/// The bytes of an ASCII text are its characters, one byte each, and the
/// bytes of a part of it are that part of its bytes.
proof fn lemma_ascii_bytes(cs: Seq<char>, j: int)
    requires
        is_ascii_chars(cs),
        0 <= j <= cs.len(),
    ensures
        bytes_of(cs).len() == cs.len(),
        forall|i: int| 0 <= i < cs.len() ==> (#[trigger] bytes_of(cs)[i]) == cs[i] as u8 && bytes_of(cs)[i] < 0x80,
        bytes_of(cs.take(j)) == bytes_of(cs).take(j),
        bytes_of(cs.skip(j)) == bytes_of(cs).skip(j),
{
    is_ascii_chars_encode_utf8(cs);
    assert forall|i: int| 0 <= i < cs.len() implies (#[trigger] bytes_of(cs)[i]) == cs[i] as u8
        && bytes_of(cs)[i] < 0x80 by {
        assert((cs[i] as u32) < 128);
        assert(cs[i] as u8 == cs[i] as u32);
    }
    assert(cs =~= cs.take(j) + cs.skip(j));
    lemma_encode_concat(cs.take(j), cs.skip(j));
    assert(is_ascii_chars(cs.take(j)));
    is_ascii_chars_encode_utf8(cs.take(j));
    assert(bytes_of(cs.take(j)) =~= bytes_of(cs).take(j));
    assert(bytes_of(cs.skip(j)) =~= bytes_of(cs).skip(j));
}

/// On an ASCII line, deleting a run backwards from column `x` deletes the
/// longest run of characters of that kind (whitespace or not) ending at
/// `x`, and nothing else.
proof fn lemma_ascii_delete_run(cs: Seq<char>, x: int, spaces: bool) -> (k: int)
    requires
        is_ascii_chars(cs),
        0 <= x <= cs.len(),
    ensures
        0 <= k <= x,
        forall|i: int| k <= i < x ==> is_whitespace_char(#[trigger] cs[i]) == spaces,
        k == 0 || is_whitespace_char(cs[k - 1]) != spaces,
        delete_run(bytes_of(cs), x, spaces) == Some((bytes_of(cs.take(k) + cs.skip(x)), k)),
    decreases x,
{
    let b = bytes_of(cs);
    encode_utf8_decode_utf8(cs);
    if x == 0 {
        assert(cs.take(0) + cs.skip(0) =~= cs);
        0
    } else if is_whitespace_char(cs[x - 1]) != spaces {
        assert(cs.take(x) + cs.skip(x) =~= cs);
        x
    } else {
        lemma_ascii_bytes(cs, x - 1);
        encode_utf8_valid_utf8(cs);
        crate::text::lemma_ascii_boundary(b, x - 1);
        let cs2 = cs.take(x - 1) + cs.skip(x);
        lemma_ascii_bytes(cs, x);
        assert(is_ascii_chars(cs2));
        lemma_encode_concat(cs.take(x - 1), cs.skip(x));
        assert(cut(b, x - 1, x) =~= b.take(x - 1) + b.skip(x));
        assert(cut(b, x - 1, x - 1 + char_width_at(b, x - 1)) == bytes_of(cs2));
        let k = lemma_ascii_delete_run(cs2, x - 1, spaces);
        assert forall|i: int| k <= i < x implies is_whitespace_char(#[trigger] cs[i]) == spaces by {
            if i < x - 1 {
                assert(cs2[i] == cs[i]);
            }
        }
        if k > 0 {
            assert(cs2[k - 1] == cs[k - 1]);
        }
        assert(cs2.take(k) + cs2.skip(x - 1) =~= cs.take(k) + cs.skip(x));
        k
    }
}

/// Before column `x` of `cs`, the characters from `m` to `x` are the
/// whitespace run ending at `x` and those from `k` to `m` the run of other
/// characters before it, both as long as they can be.
pub open spec fn word_runs_before(cs: Seq<char>, x: int, k: int, m: int) -> bool {
    &&& 0 <= k <= m <= x
    &&& forall|i: int| m <= i < x ==> is_whitespace_char(#[trigger] cs[i])
    &&& m == 0 || !is_whitespace_char(cs[m - 1])
    &&& forall|i: int| k <= i < m ==> !is_whitespace_char(#[trigger] cs[i])
    &&& k == 0 || is_whitespace_char(cs[k - 1])
}

/// On an ASCII line, deleting the word before the cursor at column `x`
/// deletes the whitespace just before the cursor and then the characters
/// before it back to the previous whitespace, and nothing else: the line
/// becomes its first `k` characters followed by those from `x` on, where
/// the characters from `k` to `m` are not whitespace, those from `m` to `x`
/// are, and the runs cannot be longer.
pub proof fn law_ascii_delete_word(cs: Seq<char>, x: int)
    requires
        is_ascii_chars(cs),
        0 <= x <= cs.len(),
    ensures
        exists|k: int, m: int|
            #[trigger] word_runs_before(cs, x, k, m) && delete_word_result(bytes_of(cs), x) == Some(
                (bytes_of(cs.take(k) + cs.skip(x)), k),
            ),
{
    let m = lemma_ascii_delete_run(cs, x, true);
    let cs2 = cs.take(m) + cs.skip(x);
    assert(is_ascii_chars(cs2));
    let k = lemma_ascii_delete_run(cs2, m, false);
    assert forall|i: int| k <= i < m implies !is_whitespace_char(#[trigger] cs[i]) by {
        assert(cs2[i] == cs[i]);
    }
    if k > 0 {
        assert(cs2[k - 1] == cs[k - 1]);
    }
    assert(cs2.take(k) + cs2.skip(m) =~= cs.take(k) + cs.skip(x));
    assert(delete_word_result(bytes_of(cs), x) == Some((bytes_of(cs.take(k) + cs.skip(x)), k)));
    assert(word_runs_before(cs, x, k, m));
}

} // verus!
