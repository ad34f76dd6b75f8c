//! What the editing operations of `Document` promise together: an edit and
//! the edit that the editor offers to take it back restore the text, and
//! saving then reopening a file gives back the same lines.
use vstd::prelude::*;
use vstd::utf8::*;
use crate::text::{
    bytes_of, char_bytes, char_width_at, crlf_lines, lemma_encode_injective, crlf_lines_from, cr_byte, cut, is_boundary, lemma_encode_concat,
    lemma_first_char_of_splice, lemma_next_newline, lemma_next_newline_is, lemma_boundary_in_range,
    lf_byte, next_newline, splice, strip_cr,
};
use crate::editor::document::{
    join_lines, paste_cursor, paste_lines, range_text, text_lines, with_char_inserted, with_char_removed,
    with_line_joined_up, with_line_split, with_lines_pasted, with_newlines, with_range_deleted, Document,
};

verus! {

broadcast use {vstd::utf8::group_utf8_lib, vstd::seq::group_seq_axioms};

/// `s` holds no line feed.
pub open spec fn no_lf(s: Seq<u8>) -> bool {
    forall|i: int| 0 <= i < s.len() ==> s[i] != lf_byte()
}

/// `s` ends with a carriage return.
pub open spec fn ends_with_cr(s: Seq<u8>) -> bool {
    s.len() > 0 && s.last() == cr_byte()
}

/// `s` holds no carriage return.
pub open spec fn no_cr(s: Seq<u8>) -> bool {
    forall|i: int| 0 <= i < s.len() ==> s[i] != cr_byte()
}

proof fn lemma_next_newline_shift(p: Seq<u8>, q: Seq<u8>, k: int)
    requires
        0 <= k <= q.len(),
    ensures
        next_newline(p + q, p.len() + k) == p.len() + next_newline(q, k),
    decreases q.len() - k,
{
    if k < q.len() {
        assert((p + q)[p.len() + k] == q[k]);
        if q[k] != lf_byte() {
            lemma_next_newline_shift(p, q, k + 1);
        }
    }
}

proof fn lemma_crlf_shift(p: Seq<u8>, q: Seq<u8>, k: int)
    requires
        0 <= k <= q.len(),
    ensures
        crlf_lines_from(p + q, p.len() + k) == crlf_lines_from(q, k),
    decreases q.len() - k,
{
    lemma_next_newline_shift(p, q, k);
    lemma_next_newline(q, k);
    let j = next_newline(q, k);
    let t = p + q;
    if j >= q.len() {
        assert(t.subrange(p.len() + k, t.len() as int) =~= q.subrange(k, q.len() as int));
    } else {
        assert(t.subrange(p.len() + k, p.len() + j) =~= q.subrange(k, j));
        lemma_crlf_shift(p, q, j + 1);
    }
}

proof fn lemma_crlf_single(s: Seq<u8>)
    requires
        no_lf(s),
    ensures
        crlf_lines(s) == seq![s],
{
    lemma_next_newline_is(s, 0, s.len() as int);
    assert(s.subrange(0, s.len() as int) =~= s);
}

proof fn lemma_crlf_cons(a: Seq<u8>, b: Seq<u8>)
    requires
        no_lf(a),
    ensures
        crlf_lines(a + seq![lf_byte()] + b) == seq![strip_cr(a)] + crlf_lines(b),
{
    let t = a + seq![lf_byte()] + b;
    assert forall|k: int| 0 <= k < a.len() implies t[k] != lf_byte() by {
        assert(t[k] == a[k]);
    }
    assert(t[a.len() as int] == lf_byte());
    lemma_next_newline_is(t, 0, a.len() as int);
    assert(t.subrange(0, a.len() as int) =~= a);
    assert(t =~= (a + seq![lf_byte()]) + b);
    lemma_crlf_shift(a + seq![lf_byte()], b, 0);
}

/// `with_newlines` read from the front.
pub proof fn lemma_with_newlines_front(m: Seq<Seq<u8>>)
    requires
        m.len() > 0,
    ensures
        with_newlines(m) == m[0] + seq![lf_byte()] + with_newlines(m.drop_first()),
    decreases m.len(),
{
    if m.len() == 1 {
        assert(m.drop_last() =~= Seq::<Seq<u8>>::empty());
        assert(m.drop_first() =~= Seq::<Seq<u8>>::empty());
        assert(with_newlines(m) =~= m[0] + seq![lf_byte()] + with_newlines(m.drop_first()));
    } else {
        lemma_with_newlines_front(m.drop_last());
        assert(m.drop_last().drop_first() =~= m.drop_first().drop_last());
        assert(m.drop_first().last() == m.last());
        assert(m.drop_last()[0] == m[0]);
        assert(with_newlines(m) =~= m[0] + seq![lf_byte()] + with_newlines(m.drop_first()));
    }
}

proof fn lemma_crlf_with_newlines(m: Seq<Seq<u8>>, b: Seq<u8>)
    requires
        forall|i: int| 0 <= i < m.len() ==> no_lf(#[trigger] m[i]) && !ends_with_cr(m[i]),
        no_lf(b),
    ensures
        crlf_lines(with_newlines(m) + b) == m + seq![b],
    decreases m.len(),
{
    if m.len() == 0 {
        assert(with_newlines(m) + b =~= b);
        lemma_crlf_single(b);
        assert(m + seq![b] =~= seq![b]);
    } else {
        lemma_with_newlines_front(m);
        let rest = with_newlines(m.drop_first()) + b;
        assert(with_newlines(m) + b =~= m[0] + seq![lf_byte()] + rest);
        assert(no_lf(m[0]) && !ends_with_cr(m[0]));
        lemma_crlf_cons(m[0], rest);
        lemma_crlf_with_newlines(m.drop_first(), b);
        assert(m + seq![b] =~= seq![m[0]] + (m.drop_first() + seq![b]));
    }
}

/// After the character at a boundary `x` is removed, `x` is still a boundary
/// (`new` is the resulting text).
pub proof fn lemma_removal_keeps_boundary(line: Seq<char>, x: int, new: Seq<char>)
    requires
        is_boundary(line, x),
        x < encode_utf8(line).len(),
        encode_utf8(new) == cut(encode_utf8(line), x, x + char_width_at(encode_utf8(line), x)),
    ensures
        is_boundary(new, x),
{
    let bs = encode_utf8(line);
    encode_utf8_valid_utf8(line);
    lemma_boundary_in_range(bs, x);
    crate::text::lemma_next_boundary(bs, x);
    let w = char_width_at(bs, x);
    valid_utf8_split(bs, x);
    valid_utf8_split(bs, x + w);
    assert(bs.subrange(0, x) =~= bs.take(x));
    assert(bs.subrange(x + w, bs.len() as int) =~= bs.skip(x + w));
    decode_utf8_encode_utf8(bs.take(x));
    decode_utf8_encode_utf8(bs.skip(x + w));
    let p = decode_utf8(bs.take(x));
    let q = decode_utf8(bs.skip(x + w));
    lemma_encode_concat(p, q);
    lemma_encode_injective(new, p + q);
    crate::text::lemma_prefix_boundary(p, q);
}

/// Typing a character and deleting it at the same column gives the line back.
pub proof fn law_remove_undoes_insert(d: Seq<Seq<u8>>, x: int, y: int, c: char, line: Seq<char>)
    requires
        0 <= y < d.len(),
        d[y] == encode_utf8(line),
        is_boundary(line, x),
    ensures
        x < with_char_inserted(d, x, y, c)[y].len(),
        with_char_removed(with_char_inserted(d, x, y, c), x, y) == d,
{
    lemma_first_char_of_splice(line, x, c);
    let t = splice(d[y], x, char_bytes(c));
    assert(cut(t, x, x + char_bytes(c).len()) =~= d[y]);
    assert(with_char_removed(with_char_inserted(d, x, y, c), x, y) =~= d);
}

/// Typing a character and pressing backspace right after it gives the line
/// back; the cursor returns to where the character went in.
pub proof fn law_backspace_undoes_insert(d: Seq<Seq<u8>>, x: int, y: int, c: char, line: Seq<char>)
    requires
        0 <= y < d.len(),
        d[y] == encode_utf8(line),
        is_boundary(line, x),
    ensures
        (x + 1) - 1 < with_char_inserted(d, x, y, c)[y].len(),
        with_char_removed(with_char_inserted(d, x, y, c), (x + 1) - 1, y) == d,
{
    law_remove_undoes_insert(d, x, y, c, line);
}

/// Breaking a line and pressing backspace at the start of the new line gives
/// the text back, and the cursor returns to the break.
pub proof fn law_backspace_undoes_split(d: Seq<Seq<u8>>, x: int, y: int)
    requires
        0 <= y < d.len(),
        0 <= x <= d[y].len(),
    ensures
        with_line_joined_up(with_line_split(d, x, y), y + 1) == d,
        with_line_split(d, x, y)[y].len() == x,
{
    let s = with_line_split(d, x, y);
    assert(s[y] + s[y + 1] =~= d[y]);
    assert(with_line_joined_up(s, y + 1) =~= d);
}

/// Cutting a range and pasting the cut text at the same place restores the
/// document and leaves the cursor at the end of the range, when the cut text
/// splits back into the same lines (no line in it holds a line feed, and
/// no line before the last ends with a carriage return).
pub proof fn law_paste_undoes_delete_range(d: Seq<Seq<u8>>, sx: int, sy: int, ex: int, ey: int)
    requires
        0 <= sy <= ey < d.len(),
        0 <= sx <= d[sy].len(),
        0 <= ex <= d[ey].len(),
        sy == ey ==> sx <= ex && no_lf(d[sy].subrange(sx, ex)),
        sy < ey ==> no_lf(d[sy].skip(sx)) && !ends_with_cr(d[sy].skip(sx)) && no_lf(d[ey].take(ex)),
        forall|i: int| sy < i < ey ==> no_lf(#[trigger] d[i]) && !ends_with_cr(d[i]),
    ensures
        ({
            let parts = crlf_lines(range_text(d, sx, sy, ex, ey));
            &&& with_lines_pasted(with_range_deleted(d, sx, sy, ex, ey), sx, sy, parts) == d
            &&& paste_cursor(sx, sy, parts) == (ex, ey)
        }),
{
    let t = range_text(d, sx, sy, ex, ey);
    let del = with_range_deleted(d, sx, sy, ex, ey);
    if sy == ey {
        lemma_crlf_single(t);
        let parts = crlf_lines(t);
        assert(del[sy] =~= d[sy].take(sx) + d[sy].skip(ex));
        assert(del[sy].take(sx) =~= d[sy].take(sx));
        assert(del[sy].skip(sx) =~= d[sy].skip(ex));
        assert(d[sy].take(sx) + parts[0] + d[sy].skip(ex) =~= d[sy]);
        assert(with_lines_pasted(del, sx, sy, parts) =~= d);
    } else {
        let m = d.subrange(sy + 1, ey);
        let m2 = seq![d[sy].skip(sx)] + m;
        assert(m2.drop_first() =~= m);
        lemma_with_newlines_front(m2);
        let b = d[ey].take(ex);
        assert(t =~= with_newlines(m2) + b);
        assert forall|i: int| 0 <= i < m2.len() implies no_lf(#[trigger] m2[i]) && !ends_with_cr(m2[i]) by {
            if i > 0 {
                assert(m2[i] == d[sy + i]);
            }
        }
        lemma_crlf_with_newlines(m2, b);
        let parts = crlf_lines(t);
        assert(parts =~= m2 + seq![b]);
        let h = d[sy].take(sx);
        let tl = d[ey].skip(ex);
        assert(del[sy] =~= h + tl);
        assert(del[sy].take(sx) =~= h);
        assert(del[sy].skip(sx) =~= tl);
        assert(parts.subrange(1, parts.len() - 1) =~= m);
        assert(h + parts[0] =~= d[sy]);
        assert(parts.last() + tl =~= d[ey]);
        assert(with_lines_pasted(del, sx, sy, parts) =~= d);
    }
}

proof fn lemma_join_front(a: Seq<u8>, rest: Seq<Seq<u8>>)
    requires
        rest.len() > 0,
    ensures
        join_lines(seq![a] + rest) == a + seq![lf_byte()] + join_lines(rest),
{
    let l = seq![a] + rest;
    assert(l.drop_last() =~= seq![a] + rest.drop_last());
    lemma_with_newlines_front(l.drop_last());
    assert(l.drop_last().drop_first() =~= rest.drop_last());
    assert(join_lines(l) =~= a + seq![lf_byte()] + join_lines(rest));
}

proof fn lemma_join_crlf_from(t: Seq<u8>, from: int)
    requires
        no_cr(t),
        0 <= from <= t.len(),
    ensures
        crlf_lines_from(t, from).len() >= 1,
        join_lines(crlf_lines_from(t, from)) == t.skip(from),
        crlf_lines_from(t, from).last().len() == 0 <==> (from == t.len() || t.last() == lf_byte()),
    decreases t.len() - from,
{
    lemma_next_newline(t, from);
    let j = next_newline(t, from);
    if j >= t.len() {
        assert(t.subrange(from, t.len() as int) =~= t.skip(from));
        if from < t.len() {
            assert(t.last() == t[t.len() - 1]);
        }
    } else {
        lemma_join_crlf_from(t, j + 1);
        let piece = t.subrange(from, j);
        if piece.len() > 0 {
            assert(piece.last() == t[j - 1]);
        }
        assert(strip_cr(piece) == piece);
        lemma_join_front(piece, crlf_lines_from(t, j + 1));
        assert(piece + seq![lf_byte()] + t.skip(j + 1) =~= t.skip(from));
        assert((seq![piece] + crlf_lines_from(t, j + 1)).last() == crlf_lines_from(t, j + 1).last());
    }
}

/// Opening a file and saving it writes back the same text, when the text has
/// no carriage return and does not end with a line feed.
pub proof fn law_save_after_open(t: Seq<u8>)
    requires
        no_cr(t),
        t.len() == 0 || t.last() != lf_byte(),
    ensures
        join_lines(text_lines(t)) == t,
{
    lemma_join_crlf_from(t, 0);
    assert(t.skip(0) =~= t);
    if t.len() == 0 {
        assert(join_lines(seq![Seq::<u8>::empty()]) =~= Seq::<u8>::empty()) by {
            assert(seq![Seq::<u8>::empty()].drop_last() =~= Seq::<Seq<u8>>::empty());
        }
    }
}

/// Saving a document and opening the file again gives back the same lines,
/// when no line holds a line feed, no line but the last ends with a carriage
/// return, and the last line is not empty unless it is the only one.
pub proof fn law_open_after_save(d: Seq<Seq<u8>>)
    requires
        d.len() >= 1,
        forall|i: int| 0 <= i < d.len() ==> no_lf(#[trigger] d[i]),
        forall|i: int| 0 <= i < d.len() - 1 ==> !ends_with_cr(#[trigger] d[i]),
        d.len() == 1 || d.last().len() > 0,
    ensures
        text_lines(join_lines(d)) == d,
{
    let m = d.drop_last();
    assert forall|i: int| 0 <= i < m.len() implies no_lf(#[trigger] m[i]) && !ends_with_cr(m[i]) by {
        assert(m[i] == d[i]);
    }
    assert(no_lf(d.last())) by {
        assert(d.last() == d[d.len() - 1]);
    }
    lemma_crlf_with_newlines(m, d.last());
    assert(m + seq![d.last()] =~= d);
    if d.len() == 1 && d[0].len() == 0 {
        assert(crlf_lines(join_lines(d)).drop_last() =~= Seq::<Seq<u8>>::empty());
        assert(text_lines(join_lines(d)) =~= d);
    }
}

/// Deleting the span that typing some lines reports (from where they went
/// in to the cursor after them) gives the text back.
pub proof fn law_delete_undoes_paste(d: Seq<Seq<u8>>, x: int, y: int, parts: Seq<Seq<u8>>)
    requires
        0 <= y < d.len(),
        0 <= x <= d[y].len(),
        parts.len() >= 1,
    ensures
        ({
            let c = paste_cursor(x, y, parts);
            with_range_deleted(with_lines_pasted(d, x, y, parts), x, y, c.0, c.1) == d
        }),
{
    let p = with_lines_pasted(d, x, y, parts);
    let before = d[y].take(x);
    let after = d[y].skip(x);
    let c = paste_cursor(x, y, parts);
    let k = parts.len() as int;
    let mid = paste_lines(before, parts, after);
    assert(p =~= d.take(y) + mid + d.skip(y + 1));
    assert(mid.len() == k);
    assert(p.len() == d.len() + k - 1);
    assert(p.take(y) =~= d.take(y));
    assert(p.skip(y + k) =~= d.skip(y + 1));
    if k == 1 {
        assert(p[y] == before + parts[0] + after);
        assert(p[y].take(x) =~= before);
        assert(p[y].skip(x + parts[0].len()) =~= after);
    } else {
        assert(p[y] == before + parts[0]);
        assert(p[y + k - 1] == mid[k - 1]);
        assert(mid[k - 1] == parts.last() + after);
        assert(p[y].take(x) =~= before);
        assert(p[y + k - 1].skip(parts.last().len() as int) =~= after);
    }
    assert(before + after =~= d[y]);
    assert(with_range_deleted(p, x, y, c.0, c.1) =~= d);
}

/// `Document::delete_range` over the span that `Document::insert_str`
/// reports (from where the text went in to the cursor it returns) gives the
/// document back, whatever text was inserted.
pub proof fn law_delete_range_undoes_insert_str(d: Document, x: int, y: int, text: Seq<char>)
    requires
        d.is_position(x, y),
    ensures
        ({
            let parts = crlf_lines(bytes_of(text));
            let c = paste_cursor(x, y, parts);
            with_range_deleted(with_lines_pasted(d@, x, y, parts), x, y, c.0, c.1) == d@
        }),
{
    let line = d.lines@[y]@;
    assert(d@[y] == bytes_of(line));
    encode_utf8_valid_utf8(line);
    lemma_boundary_in_range(bytes_of(line), x);
    let t = bytes_of(text);
    assert(crlf_lines_from(t, 0).len() >= 1);
    law_delete_undoes_paste(d@, x, y, crlf_lines(t));
}

} // verus!
