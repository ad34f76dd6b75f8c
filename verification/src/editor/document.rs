//! The text buffer: a list of lines, edited at byte columns.
use vstd::prelude::*;
use vstd::utf8::*;
use crate::text::{
    bytes_of, byte_len, char_bytes, char_width_at, crlf_lines, cut, is_boundary, lemma_ascii_char_bytes,
    lemma_encode_concat, lf_byte, splice, split_newlines, string_insert, string_insert_str,
    string_remove, string_split_off, strings_bytes, substring, lemma_splice_boundaries, lemma_prefix_boundary,
};

verus! {

/// Each line followed by a line feed.
pub open spec fn with_newlines(ls: Seq<Seq<u8>>) -> Seq<u8>
    decreases ls.len(),
{
    if ls.len() == 0 {
        seq![]
    } else {
        with_newlines(ls.drop_last()) + ls.last() + seq![lf_byte()]
    }
}

/// The lines joined by line feeds (as `[String]::join("\n")`).
pub open spec fn join_lines(ls: Seq<Seq<u8>>) -> Seq<u8> {
    if ls.len() == 0 {
        seq![]
    } else {
        with_newlines(ls.drop_last()) + ls.last()
    }
}

/// The text from `(sx, sy)` up to `(ex, ey)`, lines separated by line feeds.
pub open spec fn range_text(d: Seq<Seq<u8>>, sx: int, sy: int, ex: int, ey: int) -> Seq<u8> {
    if sy == ey {
        d[sy].subrange(sx, ex)
    } else {
        d[sy].skip(sx) + seq![lf_byte()] + with_newlines(d.subrange(sy + 1, ey)) + d[ey].take(ex)
    }
}

/// The lines that replace one line when `parts` is typed in between `before` and `after`.
pub open spec fn paste_lines(before: Seq<u8>, parts: Seq<Seq<u8>>, after: Seq<u8>) -> Seq<Seq<u8>> {
    if parts.len() == 1 {
        seq![before + parts[0] + after]
    } else {
        seq![before + parts[0]] + parts.subrange(1, parts.len() - 1) + seq![parts.last() + after]
    }
}

/// `d` after `c` is typed at column `x` of line `y`.
pub open spec fn with_char_inserted(d: Seq<Seq<u8>>, x: int, y: int, c: char) -> Seq<Seq<u8>> {
    d.update(y, splice(d[y], x, char_bytes(c)))
}

/// `d` after line `y` is broken at column `x`.
pub open spec fn with_line_split(d: Seq<Seq<u8>>, x: int, y: int) -> Seq<Seq<u8>> {
    d.update(y, d[y].take(x)).insert(y + 1, d[y].skip(x))
}

/// `d` after the character at column `x` of line `y` is deleted.
pub open spec fn with_char_removed(d: Seq<Seq<u8>>, x: int, y: int) -> Seq<Seq<u8>> {
    d.update(y, cut(d[y], x, x + char_width_at(d[y], x)))
}

/// `d` after line `y` is appended to line `y - 1`.
pub open spec fn with_line_joined_up(d: Seq<Seq<u8>>, y: int) -> Seq<Seq<u8>> {
    d.update(y - 1, d[y - 1] + d[y]).remove(y)
}

/// `d` after the text from `(sx, sy)` to `(ex, ey)` is deleted.
pub open spec fn with_range_deleted(d: Seq<Seq<u8>>, sx: int, sy: int, ex: int, ey: int) -> Seq<Seq<u8>> {
    d.take(sy) + seq![d[sy].take(sx) + d[ey].skip(ex)] + d.skip(ey + 1)
}

/// `d` after the lines `parts` are typed at column `x` of line `y`.
pub open spec fn with_lines_pasted(d: Seq<Seq<u8>>, x: int, y: int, parts: Seq<Seq<u8>>) -> Seq<Seq<u8>> {
    d.take(y) + paste_lines(d[y].take(x), parts, d[y].skip(x)) + d.skip(y + 1)
}

/// Where the cursor ends after the lines `parts` are typed at column `x` of line `y`.
pub open spec fn paste_cursor(x: int, y: int, parts: Seq<Seq<u8>>) -> (int, int) {
    if parts.len() == 1 {
        (x + parts[0].len(), y)
    } else {
        (parts.last().len() as int, y + parts.len() - 1)
    }
}

/// The lines of a file's text as `str::lines` yields them (a final line
/// terminator ends the last line rather than starting an empty one), or a
/// single empty line when there are none.
pub open spec fn text_lines(t: Seq<u8>) -> Seq<Seq<u8>> {
    let ls = crlf_lines(t);
    let kept = if ls.len() > 0 && ls.last().len() == 0 {
        ls.drop_last()
    } else {
        ls
    };
    if kept.len() == 0 {
        seq![Seq::<u8>::empty()]
    } else {
        kept
    }
}

/// Appends a line feed.
fn push_newline(s: &mut String)
    ensures
        bytes_of(final(s)@) == bytes_of(old(s)@) + seq![lf_byte()],
{
    s.append("\n");
    proof {
        reveal_strlit("\n");
        assert("\n"@ =~= seq!['\n']);
        lemma_encode_concat(old(s)@, seq!['\n']);
        lemma_ascii_char_bytes();
    }
}

broadcast use {vstd::utf8::group_utf8_lib, vstd::seq::group_seq_axioms};

/// The lines of an open file. Line `y`, column `x` addresses byte `x` of
/// line `y`; lines hold no line terminator.
#[derive(Debug)]
pub struct Document {
    pub lines: Vec<String>,
}

impl View for Document {
    type V = Seq<Seq<u8>>;

    /// The UTF-8 bytes of each line.
    open spec fn view(&self) -> Seq<Seq<u8>> {
        Seq::new(self.lines@.len(), |i: int| bytes_of(self.lines@[i]@))
    }
}

impl Document {
    /// `(x, y)` names an existing line and a byte of it that starts a character
    /// (or the end of the line).
    pub open spec fn is_position(&self, x: int, y: int) -> bool {
        0 <= y < self.lines@.len() && is_boundary(self.lines@[y]@, x)
    }

    /// A document with a single empty line.
    pub fn new() -> (d: Document)
        ensures
            d@ == seq![Seq::<u8>::empty()],
    {
        let mut lines: Vec<String> = Vec::new();
        lines.push(String::new());
        let d = Document { lines };
        proof {
            assert(encode_utf8(Seq::<char>::empty()) == Seq::<u8>::empty());
            assert(d@ =~= seq![Seq::<u8>::empty()]);
        }
        d
    }

    /// Inserts `c` at column `x` of line `y`.
    pub fn insert_char(&mut self, x: usize, y: usize, c: char)
        requires
            old(self).is_position(x as int, y as int),
        ensures
            final(self)@ == with_char_inserted(old(self)@, x as int, y as int, c),
    {
        string_insert(&mut self.lines[y], x, c);
        proof {
            assert(self@ =~= old(self)@.update(y as int, splice(old(self)@[y as int], x as int, char_bytes(c))));
        }
    }

    /// Breaks line `y` at column `x`: the text after `x` becomes a new line below.
    pub fn split_line(&mut self, x: usize, y: usize)
        requires
            old(self).is_position(x as int, y as int),
        ensures
            final(self)@ == with_line_split(old(self)@, x as int, y as int),
    {
        // The number of lines, a `usize`, bounds the index of the new line.
        let _line_count = self.lines.len();
        let new_line = string_split_off(&mut self.lines[y], x);
        self.lines.insert(y + 1, new_line);
        proof {
            assert(self@ =~= old(self)@.update(y as int, old(self)@[y as int].take(x as int)).insert(
                y + 1,
                old(self)@[y as int].skip(x as int),
            ));
        }
    }

    /// Deletes the character that starts at column `x` of line `y`.
    pub fn remove_char(&mut self, x: usize, y: usize)
        requires
            old(self).is_position(x as int, y as int),
            x < old(self)@[y as int].len(),
        ensures
            final(self)@ == with_char_removed(old(self)@, x as int, y as int),
    {
        string_remove(&mut self.lines[y], x);
        proof {
            assert(self@ =~= old(self)@.update(
                y as int,
                cut(old(self)@[y as int], x as int, x + char_width_at(old(self)@[y as int], x as int)),
            ));
        }
    }

    /// Deletes backwards from column `x` of line `y` and returns the new cursor:
    /// inside a line the character that starts at byte `x - 1` goes; at the
    /// start of a line that line is joined onto the one above; at the start
    /// of the document nothing changes.
    pub fn backspace(&mut self, x: usize, y: usize) -> (r: (usize, usize))
        requires
            x > 0 ==> old(self).is_position(x - 1, y as int) && x - 1 < old(self)@[y as int].len(),
            x == 0 && y > 0 ==> y < old(self)@.len(),
        ensures
            x > 0 ==> r == ((x - 1) as usize, y) && final(self)@ == with_char_removed(old(self)@, x - 1, y as int),
            x == 0 && y > 0 ==> r.0 == old(self)@[y - 1].len() && r.1 == y - 1
                && final(self)@ == with_line_joined_up(old(self)@, y as int),
            x == 0 && y == 0 ==> r == (0usize, 0usize) && final(self)@ == old(self)@,
    {
        if x > 0 {
            string_remove(&mut self.lines[y], x - 1);
            proof {
                assert(self@ =~= old(self)@.update(
                    y as int,
                    cut(old(self)@[y as int], x - 1, x - 1 + char_width_at(old(self)@[y as int], x - 1)),
                ));
            }
            return (x - 1, y);
        }
        if y > 0 {
            let current_line = self.lines.remove(y);
            let previous_length = byte_len(&self.lines[y - 1]);
            self.lines[y - 1].append(current_line.as_str());
            proof {
                lemma_encode_concat(old(self).lines@[y - 1]@, old(self).lines@[y as int]@);
                assert(self@ =~= old(self)@.update(y - 1, old(self)@[y - 1] + old(self)@[y as int]).remove(
                    y as int,
                ));
            }
            return (previous_length, y - 1);
        }
        (x, y)
    }

    /// The text between `start` and `end` (each `(x, y)`), lines separated by
    /// line feeds.
    pub fn extract_range(&self, start: (usize, usize), end: (usize, usize)) -> (r: String)
        requires
            start.1 <= end.1,
            self.is_position(start.0 as int, start.1 as int),
            self.is_position(end.0 as int, end.1 as int),
            start.1 == end.1 ==> start.0 <= end.0,
        ensures
            bytes_of(r@) == range_text(self@, start.0 as int, start.1 as int, end.0 as int, end.1 as int),
    {
        let (sx, sy) = start;
        let (ex, ey) = end;
        if sy == ey {
            return substring(&self.lines[sy], sx, ex);
        }
        let ghost d = self@;
        let first = &self.lines[sy];
        proof {
            encode_utf8_valid_utf8(first@);
            is_char_boundary_start_end_of_seq(bytes_of(first@));
        }
        let mut result = substring(first, sx, byte_len(first));
        push_newline(&mut result);
        let mut i = sy + 1;
        proof {
            assert(d[sy as int].subrange(sx as int, d[sy as int].len() as int) =~= d[sy as int].skip(sx as int));
            assert(d.subrange(sy + 1, i as int) =~= Seq::<Seq<u8>>::empty());
            assert(with_newlines(Seq::<Seq<u8>>::empty()) =~= Seq::<u8>::empty());
        }
        while i < ey
            invariant
                d == self@,
                sy < i <= ey < d.len(),
                bytes_of(result@) == d[sy as int].skip(sx as int) + seq![lf_byte()] + with_newlines(
                    d.subrange(sy + 1, i as int),
                ),
            decreases ey - i,
        {
            let ghost before = result@;
            result.append(self.lines[i].as_str());
            proof {
                lemma_encode_concat(before, self.lines@[i as int]@);
            }
            push_newline(&mut result);
            proof {
                let sub = d.subrange(sy + 1, i + 1);
                assert(sub.drop_last() =~= d.subrange(sy + 1, i as int));
                assert(sub.last() == d[i as int]);
                assert(bytes_of(result@) =~= d[sy as int].skip(sx as int) + seq![lf_byte()] + with_newlines(sub));
            }
            i += 1;
        }
        let last = substring(&self.lines[ey], 0, ex);
        let ghost before = result@;
        result.append(last.as_str());
        proof {
            lemma_encode_concat(before, last@);
            assert(d[ey as int].subrange(0, ex as int) =~= d[ey as int].take(ex as int));
        }
        result
    }

    /// Deletes the text between `start` and `end` and returns `start`, where
    /// the cursor goes.
    pub fn delete_range(&mut self, start: (usize, usize), end: (usize, usize)) -> (r: (usize, usize))
        requires
            start.1 <= end.1,
            old(self).is_position(start.0 as int, start.1 as int),
            old(self).is_position(end.0 as int, end.1 as int),
            start.1 == end.1 ==> start.0 <= end.0,
        ensures
            r == start,
            final(self)@ == with_range_deleted(old(self)@, start.0 as int, start.1 as int, end.0 as int, end.1 as int),
    {
        let (sx, sy) = start;
        let (ex, ey) = end;
        let ghost d = self@;
        let end_line = &self.lines[ey];
        proof {
            encode_utf8_valid_utf8(end_line@);
            is_char_boundary_start_end_of_seq(bytes_of(end_line@));
        }
        let tail = substring(end_line, ex, byte_len(end_line));
        let mut head = substring(&self.lines[sy], 0, sx);
        let mut k = sy;
        while k < ey
            invariant
                sy <= k <= ey < old(self).lines@.len(),
                d == old(self)@,
                self.lines@ == old(self).lines@.take(sy + 1) + old(self).lines@.skip(k + 1),
            decreases ey - k,
        {
            let ghost before = self.lines@;
            self.lines.remove(sy + 1);
            proof {
                assert(self.lines@ =~= old(self).lines@.take(sy + 1) + old(self).lines@.skip(k + 2));
            }
            k += 1;
        }
        let ghost head_before = head@;
        head.append(tail.as_str());
        proof {
            lemma_encode_concat(head_before, tail@);
        }
        self.lines.set(sy, head);
        proof {
            assert(d[sy as int].subrange(0, sx as int) =~= d[sy as int].take(sx as int));
            assert(d[ey as int].subrange(ex as int, d[ey as int].len() as int) =~= d[ey as int].skip(ex as int));
            assert(self@ =~= d.take(sy as int) + seq![d[sy as int].take(sx as int) + d[ey as int].skip(ex as int)]
                + d.skip(ey + 1));
        }
        (sx, sy)
    }

    /// Types `text` at column `x` of line `y` (a `"\r\n"` in it counts as one
    /// line break) and returns the cursor after it.
    pub fn insert_str(&mut self, x: usize, y: usize, text: &str) -> (r: (usize, usize))
        requires
            old(self).is_position(x as int, y as int),
        ensures
            final(self)@ == with_lines_pasted(old(self)@, x as int, y as int, crlf_lines(bytes_of(text@))),
            r.0 == paste_cursor(x as int, y as int, crlf_lines(bytes_of(text@))).0,
            r.1 == paste_cursor(x as int, y as int, crlf_lines(bytes_of(text@))).1,
            final(self).is_position(r.0 as int, r.1 as int),
    {
        let ghost d = self@;
        let parts = split_newlines(text);
        let ghost p = crlf_lines(bytes_of(text@));
        let n = parts.len();
        if n == 1 {
            let ghost line0 = self.lines@[y as int]@;
            string_insert_str(&mut self.lines[y], x, parts[0].as_str());
            // The line's new length, a `usize`, bounds the returned column.
            let _line_len = byte_len(&self.lines[y]);
            proof {
                lemma_splice_boundaries(line0, x as int, parts@[0]@, self.lines@[y as int]@);
                assert(p[0] == bytes_of(parts@[0]@));
                assert(self@ =~= d.take(y as int) + paste_lines(d[y as int].take(x as int), p, d[y as int].skip(x as int))
                    + d.skip(y + 1));
            }
            return (x + byte_len(parts[0].as_str()), y);
        }
        let line = &self.lines[y];
        proof {
            encode_utf8_valid_utf8(line@);
            is_char_boundary_start_end_of_seq(bytes_of(line@));
        }
        let mut first = substring(line, 0, x);
        let after = substring(line, x, byte_len(line));
        let ghost first_before = first@;
        first.append(parts[0].as_str());
        proof {
            lemma_encode_concat(first_before, parts@[0]@);
            assert(p[0] == bytes_of(parts@[0]@));
        }
        // The number of lines, a `usize`, bounds the indexes of the new lines.
        let _line_count = self.lines.len();
        self.lines.set(y, first);
        proof {
            assert(d[y as int].subrange(0, x as int) =~= d[y as int].take(x as int));
            assert(d[y as int].subrange(x as int, d[y as int].len() as int) =~= d[y as int].skip(x as int));
        }
        let mut insert_at = y + 1;
        let mut i: usize = 1;
        while i < n - 1
            invariant
                d == old(self)@,
                p == strings_bytes(parts@),
                n == parts@.len(),
                2 <= n,
                1 <= i <= n - 1,
                insert_at == y + i,
                self.lines@.len() == d.len() + i - 1,
                self@ == d.take(y as int) + seq![d[y as int].take(x as int) + p[0]] + p.subrange(1, i as int)
                    + d.skip(y + 1),
                y < d.len(),
            decreases n - 1 - i,
        {
            let ghost prev = self@;
            self.lines.insert(insert_at, parts[i].clone());
            let _line_count = self.lines.len();
            proof {
                assert(self@ =~= prev.insert(insert_at as int, p[i as int]));
                assert(self@ =~= d.take(y as int) + seq![d[y as int].take(x as int) + p[0]] + p.subrange(
                    1,
                    i + 1,
                ) + d.skip(y + 1));
            }
            insert_at += 1;
            i += 1;
        }
        let mut final_line = parts[n - 1].clone();
        let ghost final_before = final_line@;
        final_line.append(after.as_str());
        let last_len = byte_len(parts[n - 1].as_str());
        let ghost prev = self@;
        self.lines.insert(insert_at, final_line);
        proof {
            lemma_encode_concat(final_before, after@);
            lemma_prefix_boundary(final_before, after@);
            assert(self.lines@[insert_at as int]@ == final_before + after@);
            assert(p.last() == bytes_of(parts@[n - 1]@));
            assert(self@ =~= prev.insert(insert_at as int, p.last() + d[y as int].skip(x as int)));
            assert(p.subrange(1, n - 1) =~= p.subrange(1, i as int));
            assert(self@ =~= d.take(y as int) + paste_lines(d[y as int].take(x as int), p, d[y as int].skip(x as int))
                + d.skip(y + 1));
        }
        (last_len, insert_at)
    }

    /// The document for a file's text (the parsing half of opening a file).
    pub fn from_text(content: &str) -> (d: Document)
        ensures
            d@ == text_lines(bytes_of(content@)),
    {
        let mut lines = split_newlines(content);
        let ghost ls = crlf_lines(bytes_of(content@));
        let count = lines.len();
        if byte_len(lines[count - 1].as_str()) == 0 {
            lines.pop();
        }
        if lines.len() == 0 {
            lines.push(String::new());
        }
        let d = Document { lines };
        proof {
            assert(encode_utf8(Seq::<char>::empty()) == Seq::<u8>::empty());
            assert(d@ =~= text_lines(bytes_of(content@)));
        }
        d
    }

    /// The text of the document, lines joined by line feeds (what saving writes).
    pub fn to_text(&self) -> (t: String)
        ensures
            bytes_of(t@) == join_lines(self@),
    {
        let n = self.lines.len();
        if n == 0 {
            let t = String::new();
            proof {
                assert(encode_utf8(Seq::<char>::empty()) == Seq::<u8>::empty());
            }
            return t;
        }
        let ghost d = self@;
        let mut result = self.lines[0].clone();
        let mut i: usize = 1;
        proof {
            let first = d.take(1);
            assert(first.drop_last() =~= Seq::<Seq<u8>>::empty());
            assert(with_newlines(Seq::<Seq<u8>>::empty()) =~= Seq::<u8>::empty());
            assert(join_lines(first) =~= d[0]);
        }
        while i < n
            invariant
                d == self@,
                n == d.len(),
                1 <= i <= n,
                bytes_of(result@) == join_lines(d.take(i as int)),
            decreases n - i,
        {
            push_newline(&mut result);
            let ghost before = result@;
            result.append(self.lines[i].as_str());
            proof {
                lemma_encode_concat(before, self.lines@[i as int]@);
                let a = d.take(i as int);
                let b = d.take(i + 1);
                assert(b.drop_last() =~= a);
                assert(a.drop_last() =~= d.take(i - 1));
                assert(with_newlines(a) =~= with_newlines(a.drop_last()) + a.last() + seq![lf_byte()]);
                assert(bytes_of(result@) =~= join_lines(b));
            }
            i += 1;
        }
        proof {
            assert(d.take(n as int) =~= d);
        }
        result
    }
}

} // verus!
