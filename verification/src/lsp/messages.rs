//! What the language server sends, and what the editor does with it:
//! completions narrowed to the word being typed, diagnostics for the file
//! on screen, hover replies for the position asked about, and semantic
//! tokens decoded from their packed form.
use vstd::prelude::*;
use std::collections::BTreeMap;
use crate::app::{App, OpenNotice};
use crate::lsp::protocol::{CompletionItem, Diagnostic, Hover, SemanticToken};
use crate::management::input_management::{chars_before, completion_start_chars, is_word, last_non_word_before};
use crate::text::{bytes_of, is_word_char, lowercase_of, substring, str_eq, to_lowercase};

verus! {

/// A message from the language server.
#[derive(Debug)]
pub enum LspMessage {
    /// The server is ready, with the names of its token types.
    Initialized(Vec<String>),
    /// The problems found in the file with this URI.
    Diagnostics(String, Vec<Diagnostic>),
    /// Completions for the cursor.
    Completion(Vec<CompletionItem>),
    /// The hover reply for a line and UTF-16 column.
    Hover(usize, usize, Option<Hover>),
    /// The file's semantic tokens, packed five numbers to a token.
    SemanticTokens(Vec<u32>),
}

/// `p` begins `s`.
pub open spec fn starts_with(s: Seq<char>, p: Seq<char>) -> bool {
    p.len() <= s.len() && s.take(p.len() as int) == p
}

/// The word being typed before the cursor, in lowercase.
pub open spec fn typed_prefix(a: App) -> Seq<char> {
    let before = chars_before(a.document@[a.cursor.y as int], a.cursor.x as int);
    lowercase_of(before.skip(completion_start_chars(before)))
}

/// The completions among `items` whose lowercase label starts with
/// `prefix` (all of them for an empty prefix).
pub open spec fn matching_items(items: Seq<CompletionItem>, prefix: Seq<char>) -> Seq<CompletionItem> {
    if prefix.len() == 0 {
        items
    } else {
        items.filter(|item: CompletionItem| starts_with(lowercase_of(item.label@), prefix))
    }
}

/// The tokens packed in `data` from the `j`-th group of five numbers on,
/// each with the line and start it is counted from: a group holds the
/// line delta, the start (a delta on the same line), the length, the
/// index of its type in `legend`, and its modifiers. Groups with a type
/// outside `legend` are skipped, and numbers past the last whole group
/// are ignored.
pub open spec fn decoded_from(data: Seq<u32>, legend: Seq<String>, j: int, line: int, start: int) -> Seq<(usize, SemanticToken)>
    decreases data.len() / 5 - j,
{
    if j < 0 || j >= data.len() / 5 {
        seq![]
    } else {
        let line2 = line + data[5 * j];
        let start2 = if data[5 * j] == 0 {
            start + data[5 * j + 1]
        } else {
            data[5 * j + 1] as int
        };
        let rest = decoded_from(data, legend, j + 1, line2, start2);
        if (data[5 * j + 3] as int) < legend.len() {
            seq![
                (line2 as usize, SemanticToken {
                    start: start2 as usize,
                    length: data[5 * j + 2] as usize,
                    token_type: legend[data[5 * j + 3] as int],
                    modifiers: data[5 * j + 4],
                }),
            ] + rest
        } else {
            rest
        }
    }
}

/// The tokens of `s` gathered by line, each line's in the order they come.
pub open spec fn tokens_by_line(s: Seq<(usize, SemanticToken)>) -> Map<usize, Seq<SemanticToken>>
    decreases s.len(),
{
    if s.len() == 0 {
        Map::empty()
    } else {
        let m = tokens_by_line(s.drop_last());
        let (line, token) = s.last();
        let old_tokens = if m.contains_key(line) { m[line] } else { seq![] };
        m.insert(line, old_tokens.push(token))
    }
}

/// The tokens of each line of a map of token lists.
pub open spec fn token_lines(m: Map<usize, Vec<SemanticToken>>) -> Map<usize, Seq<SemanticToken>> {
    m.map_values(|v: Vec<SemanticToken>| v@)
}

/// Decoding from the `j`-th group on keeps lines and starts within `usize`.
pub open spec fn decode_fits(data: Seq<u32>, j: int, line: int, start: int) -> bool
    decreases data.len() / 5 - j,
{
    if j < 0 || j >= data.len() / 5 {
        true
    } else {
        let line2 = line + data[5 * j];
        let start2 = if data[5 * j] == 0 {
            start + data[5 * j + 1]
        } else {
            data[5 * j + 1] as int
        };
        line2 <= usize::MAX && start2 <= usize::MAX && decode_fits(data, j + 1, line2, start2)
    }
}

/// `b` and `n` are `a` and what the server is told after `msg` came, where
/// `current_uri` is the URI of the file on screen.
pub open spec fn received(a: App, msg: LspMessage, current_uri: Seq<char>, b: App, n: Option<OpenNotice>) -> bool {
    match msg {
        LspMessage::Initialized(legend) => {
            let ready = App { lsp_ready: true, semantic_legend: legend, ..a };
            b == ready && App::open_notice_ok(ready, n)
        },
        LspMessage::Completion(items) => {
            &&& n is None
            &&& b.completions@ == matching_items(items@, typed_prefix(a))
            &&& b == (App { completions: b.completions, completion_selected: 0, ..a })
        },
        LspMessage::Diagnostics(uri, items) => n is None && if uri@ == current_uri {
            b == (App { diagnostics: items, ..a })
        } else {
            b == a
        },
        LspMessage::Hover(line, character, hover) => n is None && if a.hover_position == Some((line, character)) {
            b == (App { hover, ..a })
        } else {
            b == a
        },
        LspMessage::SemanticTokens(data) => {
            &&& n is None
            &&& token_lines(b.semantic_tokens@) == tokens_by_line(decoded_from(data@, a.semantic_legend@, 0, 0, 0))
            &&& b == (App { semantic_tokens: b.semantic_tokens, ..a })
        },
    }
}

/// `msg` can be taken in state `a`: completions need the cursor between two
/// characters, and tokens must keep within `usize`.
pub open spec fn receive_ok(a: App, msg: LspMessage) -> bool {
    match msg {
        LspMessage::Completion(_) => a.cursor_ok(),
        LspMessage::SemanticTokens(data) => decode_fits(data@, 0, 0, 0),
        _ => true,
    }
}

/// Whether `p` begins `s`.
pub fn str_starts_with(s: &str, p: &str) -> (r: bool)
    ensures
        r == starts_with(s@, p@),
{
    let n = p.unicode_len();
    if n > s.unicode_len() {
        return false;
    }
    let mut i: usize = 0;
    while i < n
        invariant
            n == p@.len(),
            n <= s@.len(),
            i <= n,
            forall|k: int| 0 <= k < i ==> s@[k] == p@[k],
        decreases n - i,
    {
        if s.get_char(i) != p.get_char(i) {
            assert(s@.take(n as int)[i as int] != p@[i as int]);
            return false;
        }
        i += 1;
    }
    assert(s@.take(n as int) =~= p@);
    true
}

/// The word made of word characters that ends at byte `x` of `line`.
fn typed_word(line: &str, x: usize) -> (word: String)
    requires
        crate::text::is_boundary(line@, x as int),
    ensures
        ({
            let before = chars_before(bytes_of(line@), x as int);
            word@ == before.skip(completion_start_chars(before))
        }),
{
    proof {
        vstd::utf8::encode_utf8_valid_utf8(line@);
        vstd::utf8::is_char_boundary_start_end_of_seq(bytes_of(line@));
    }
    let head = substring(line, 0, x);
    let ghost before = head@;
    proof {
        vstd::utf8::encode_utf8_decode_utf8(head@);
        assert(bytes_of(line@).subrange(0, x as int) =~= bytes_of(line@).take(x as int));
    }
    let count = head.as_str().unicode_len();
    let mut k = count;
    while k > 0 && is_word(head.as_str().get_char(k - 1))
        invariant
            before == head@,
            count == before.len(),
            k <= count,
            last_non_word_before(before, k as int) == last_non_word_before(before, count as int),
        decreases k,
    {
        k -= 1;
    }
    proof {
        crate::management::input_management::lemma_last_non_word(before, count as int);
        if k > 0 {
            assert(last_non_word_before(before, k as int) == Some(k - 1));
        }
    }
    head.as_str().substring_char(k, count).to_string()
}

impl App {
    /// The completions among `items` that match the word being typed.
    fn matching_completions(&self, items: Vec<CompletionItem>) -> (kept: Vec<CompletionItem>)
        requires
            self.cursor_ok(),
        ensures
            kept@ == matching_items(items@, typed_prefix(*self)),
    {
        let y = self.cursor.y;
        proof {
            assert(self.document@[y as int] == bytes_of(self.document.lines@[y as int]@));
        }
        let word = typed_word(self.document.lines[y].as_str(), self.cursor.x);
        let prefix = to_lowercase(word.as_str());
        if prefix.as_str().unicode_len() == 0 {
            return items;
        }
        let ghost pre = prefix@;
        let ghost pred = |item: CompletionItem| starts_with(lowercase_of(item.label@), pre);
        let mut kept: Vec<CompletionItem> = Vec::new();
        let mut items = items;
        let ghost all = items@;
        let n = items.len();
        while items.len() > 0
            invariant
                all.len() == n,
                items@.len() <= n,
                items@ == all.skip(n - items@.len()),
                kept@ == all.take(n - items@.len()).filter(pred),
                pre == prefix@,
                pred == (|item: CompletionItem| starts_with(lowercase_of(item.label@), pre)),
            decreases items@.len(),
        {
            let ghost done = n - items@.len();
            let item = items.remove(0);
            proof {
                assert(items@ =~= all.skip(n - items@.len()));
                assert(item == all[done]);
                assert(all.take(done + 1) =~= all.take(done).push(item));
                all.take(done).lemma_filter_push(item, pred);
            }
            let label = to_lowercase(item.label.as_str());
            if str_starts_with(label.as_str(), prefix.as_str()) {
                kept.push(item);
            }
        }
        proof {
            assert(all.take(n as int) =~= all);
        }
        kept
    }

    /// Decodes the packed semantic tokens in `data` with the token types
    /// the server named.
    pub fn set_semantic_tokens(&mut self, data: &Vec<u32>)
        requires
            decode_fits(data@, 0, 0, 0),
        ensures
            token_lines(final(self).semantic_tokens@) == tokens_by_line(
                decoded_from(data@, old(self).semantic_legend@, 0, 0, 0),
            ),
            *final(self) == (App { semantic_tokens: final(self).semantic_tokens, ..*old(self) }),
    {
        broadcast use vstd::std_specs::btree::group_btree_axioms;
        let ghost legend = self.semantic_legend@;
        self.semantic_tokens = BTreeMap::new();
        let ghost mut done: Seq<(usize, SemanticToken)> = seq![];
        proof {
            assert(token_lines(self.semantic_tokens@) =~= tokens_by_line(done));
        }
        let len = data.len();
        let groups = len / 5;
        let mut line: usize = 0;
        let mut start: usize = 0;
        let mut j: usize = 0;
        while j < groups
            invariant
                len == data@.len(),
                groups == len / 5,
                j <= groups,
                legend == self.semantic_legend@,
                decode_fits(data@, j as int, line as int, start as int),
                done + decoded_from(data@, legend, j as int, line as int, start as int) == decoded_from(
                    data@,
                    legend,
                    0,
                    0,
                    0,
                ),
                token_lines(self.semantic_tokens@) == tokens_by_line(done),
                *self == (App { semantic_tokens: self.semantic_tokens, ..*old(self) }),
            decreases groups - j,
        {
            assert(5 * j + 5 <= len) by (nonlinear_arith)
                requires
                    j < groups,
                    groups == len / 5,
            ;
            let base = 5 * j;
            line = line + data[base] as usize;
            start = if data[base] == 0 {
                start + data[base + 1] as usize
            } else {
                data[base + 1] as usize
            };
            let kind = data[base + 3] as usize;
            if kind < self.semantic_legend.len() {
                let token = SemanticToken {
                    start,
                    length: data[base + 2] as usize,
                    token_type: self.semantic_legend[kind].clone(),
                    modifiers: data[base + 4],
                };
                let ghost before = self.semantic_tokens@;
                let existing = self.semantic_tokens.remove(&line);
                let mut tokens: Vec<SemanticToken> = match existing {
                    Some(v) => v,
                    None => Vec::new(),
                };
                let ghost old_tokens = tokens@;
                tokens.push(token);
                self.semantic_tokens.insert(line, tokens);
                proof {
                    let t = tokens_by_line(done);
                    assert(old_tokens == (if t.contains_key(line) { t[line] } else { seq![] }));
                    let done2 = done.push((line, token));
                    assert(done2.drop_last() =~= done);
                    assert(token_lines(self.semantic_tokens@) =~= tokens_by_line(done2));
                    done = done2;
                }
            }
            j += 1;
            proof {
                assert(done + decoded_from(data@, legend, j as int, line as int, start as int) =~= decoded_from(
                    data@,
                    legend,
                    0,
                    0,
                    0,
                ));
            }
        }
    }

    /// Takes a message from the language server, where `current_uri` is the
    /// URI of the file on screen. Returns what the server is to be told.
    pub fn receive(&mut self, msg: LspMessage, current_uri: &str) -> (n: Option<OpenNotice>)
        requires
            receive_ok(*old(self), msg),
        ensures
            received(*old(self), msg, current_uri@, *final(self), n),
    {
        match msg {
            LspMessage::Initialized(legend) => {
                self.lsp_ready = true;
                self.semantic_legend = legend;
                self.open_current_document()
            },
            LspMessage::Completion(items) => {
                let kept = self.matching_completions(items);
                self.completions = kept;
                self.completion_selected = 0;
                None
            },
            LspMessage::Diagnostics(uri, items) => {
                if str_eq(uri.as_str(), current_uri) {
                    self.diagnostics = items;
                }
                None
            },
            LspMessage::Hover(line, character, hover) => {
                match self.hover_position {
                    Some((l, c)) => if l == line && c == character {
                        self.hover = hover;
                    },
                    None => {},
                }
                None
            },
            LspMessage::SemanticTokens(data) => {
                self.set_semantic_tokens(&data);
                None
            },
        }
    }
}

/// A string begins with `p` exactly when it is at least as long and its
/// first characters are those of `p`, one for one; so `"eprintln"` does not
/// begin with `"pri"`, though it holds it.
pub proof fn law_starts_with_is_prefix(s: Seq<char>, p: Seq<char>)
    ensures
        starts_with(s, p) <==> (p.len() <= s.len() && forall|k: int| 0 <= k < p.len() ==> s[k] == p[k]),
        p.len() > 0 && p.len() <= s.len() && s[0] != p[0] ==> !starts_with(s, p),
{
    if p.len() <= s.len() && forall|k: int| 0 <= k < p.len() ==> s[k] == p[k] {
        assert(s.take(p.len() as int) =~= p);
    }
    if starts_with(s, p) {
        assert forall|k: int| 0 <= k < p.len() implies s[k] == p[k] by {
            assert(s.take(p.len() as int)[k] == s[k]);
        }
    }
}

/// The completions kept for a typed word are exactly those of the list
/// whose lowercase label begins with the word (all of them for no word),
/// in the list's order: each kept label's first characters are the word's.
pub proof fn law_kept_completions_begin_with_word(items: Seq<CompletionItem>, prefix: Seq<char>)
    ensures
        forall|i: int|
            0 <= i < matching_items(items, prefix).len() ==> {
                let l = lowercase_of((#[trigger] matching_items(items, prefix)[i]).label@);
                &&& prefix.len() <= l.len()
                &&& forall|k: int| 0 <= k < prefix.len() ==> l[k] == prefix[k]
            },
        forall|i: int|
            0 <= i < items.len() && prefix.len() <= lowercase_of(items[i].label@).len() && (forall|k: int|
                0 <= k < prefix.len() ==> lowercase_of(items[i].label@)[k] == prefix[k]) ==> matching_items(
                items,
                prefix,
            ).contains(#[trigger] items[i]),
        matching_items(items, prefix).len() <= items.len(),
        prefix.len() == 0 ==> matching_items(items, prefix) == items,
{
    let pred = |item: CompletionItem| starts_with(lowercase_of(item.label@), prefix);
    if prefix.len() > 0 {
        items.lemma_filter_len(pred);
        assert forall|i: int| 0 <= i < matching_items(items, prefix).len() implies {
            let l = lowercase_of((#[trigger] matching_items(items, prefix)[i]).label@);
            &&& prefix.len() <= l.len()
            &&& forall|k: int| 0 <= k < prefix.len() ==> l[k] == prefix[k]
        } by {
            items.lemma_filter_pred(pred, i);
            law_starts_with_is_prefix(lowercase_of(matching_items(items, prefix)[i].label@), prefix);
        }
        assert forall|i: int|
            0 <= i < items.len() && prefix.len() <= lowercase_of(items[i].label@).len() && (forall|k: int|
                0 <= k < prefix.len() ==> lowercase_of(items[i].label@)[k] == prefix[k]) implies matching_items(
            items,
            prefix,
        ).contains(#[trigger] items[i]) by {
            law_starts_with_is_prefix(lowercase_of(items[i].label@), prefix);
            items.lemma_filter_contains(pred, i);
        }
    } else {
        assert forall|i: int| 0 <= i < items.len() implies items.contains(#[trigger] items[i]) by {}
    }
}

} // verus!
