//! Byte-level model of the editor's text, and the `String` operations of std
//! that the editor calls but that vstd leaves unspecified.
//!
//! Lines are `String`s and every column the editor passes around is a byte
//! offset into a line, so the contracts speak of the UTF-8 encoding of a
//! line (`encode_utf8(s@)`, written `bytes_of`).
use vstd::prelude::*;
use vstd::utf8::*;

verus! {

broadcast use {vstd::utf8::group_utf8_lib, vstd::seq::group_seq_axioms};

/// The UTF-8 bytes of a character sequence.
pub open spec fn bytes_of(s: Seq<char>) -> Seq<u8> {
    encode_utf8(s)
}

/// The UTF-8 bytes of a single character.
pub open spec fn char_bytes(c: char) -> Seq<u8> {
    encode_utf8(seq![c])
}

/// `x` is a byte offset of `s` that falls between two characters (or at an end).
pub open spec fn is_boundary(s: Seq<char>, x: int) -> bool {
    is_char_boundary(encode_utf8(s), x)
}

/// The byte sequence `s` with `ins` spliced in at byte `at`.
pub open spec fn splice(s: Seq<u8>, at: int, ins: Seq<u8>) -> Seq<u8> {
    s.take(at) + ins + s.skip(at)
}

/// The byte sequence `s` with the bytes `from..to` cut out.
pub open spec fn cut(s: Seq<u8>, from: int, to: int) -> Seq<u8> {
    s.take(from) + s.skip(to)
}

/// The number of bytes that the character starting at byte `x` of `s` takes.
pub open spec fn char_width_at(s: Seq<u8>, x: int) -> int {
    length_of_first_scalar(s.skip(x))
}

/// Encoding distributes over concatenation.
pub proof fn lemma_encode_concat(a: Seq<char>, b: Seq<char>)
    ensures
        encode_utf8(a + b) == encode_utf8(a) + encode_utf8(b),
    decreases a.len(),
{
    if a.len() == 0 {
        assert(a + b =~= b);
        assert(encode_utf8(a) + encode_utf8(b) =~= encode_utf8(b));
    } else {
        assert((a + b).drop_first() =~= a.drop_first() + b);
        lemma_encode_concat(a.drop_first(), b);
        assert(encode_utf8(a + b) =~= encode_scalar(a[0] as u32) + encode_utf8(
            a.drop_first() + b,
        ));
        assert(encode_utf8(a + b) =~= encode_utf8(a) + encode_utf8(b));
    }
}

/// A character sequence is empty exactly when its encoding is.
pub proof fn lemma_bytes_empty(s: Seq<char>)
    ensures
        (encode_utf8(s).len() == 0) == (s.len() == 0),
{
    if s.len() > 0 {
        lemma_char_bytes(s[0]);
        assert(encode_utf8(s) == encode_scalar(s[0] as u32) + encode_utf8(s.drop_first()));
        assert(seq![s[0]].drop_first() =~= Seq::<char>::empty());
        assert(encode_utf8(seq![s[0]]) == encode_scalar(seq![s[0]][0] as u32) + encode_utf8(seq![s[0]].drop_first()));
    }
}

/// Two character sequences with the same encoding are equal.
pub proof fn lemma_encode_injective(a: Seq<char>, b: Seq<char>)
    requires
        encode_utf8(a) == encode_utf8(b),
    ensures
        a == b,
{
    encode_utf8_decode_utf8(a);
    encode_utf8_decode_utf8(b);
}

/// The first character of an encoding spliced in at a boundary is the one that was spliced.
pub proof fn lemma_first_char_of_splice(s: Seq<char>, x: int, c: char)
    requires
        is_boundary(s, x),
    ensures
        ({
            let t = splice(encode_utf8(s), x, char_bytes(c));
            &&& char_width_at(t, x) == char_bytes(c).len()
            &&& decode_first_scalar(t.skip(x)) as char == c
            &&& 0 <= x <= encode_utf8(s).len()
        }),
{
    let bs = encode_utf8(s);
    encode_utf8_valid_utf8(s);
    is_char_boundary_start_end_of_seq(bs);
    lemma_boundary_in_range(bs, x);
    valid_utf8_split(bs, x);
    let rest = bs.skip(x);
    assert(rest =~= bs.subrange(x, bs.len() as int));
    decode_utf8_encode_utf8(rest);
    let d = decode_utf8(rest);
    lemma_encode_concat(seq![c], d);
    let t = splice(bs, x, char_bytes(c));
    assert(t.skip(x) =~= char_bytes(c) + rest);
    assert(t.skip(x) == encode_utf8(seq![c] + d));
    encode_utf8_first_scalar(seq![c] + d);
    assert((seq![c] + d)[0] == c);
    lemma_char_bytes(c);
    char_u32_cast(c, c as u32);
}

/// The bytes of a single character are its scalar encoding.
pub proof fn lemma_char_bytes(c: char)
    ensures
        char_bytes(c) == encode_scalar(c as u32),
        1 <= char_bytes(c).len() <= 4,
{
    let one = seq![c];
    assert(one.drop_first() =~= Seq::<char>::empty());
    assert(encode_utf8(Seq::<char>::empty()) == Seq::<u8>::empty());
    assert(one[0] == c);
    assert(encode_utf8(one) == encode_scalar(one[0] as u32) + encode_utf8(one.drop_first()));
    assert(encode_utf8(one) =~= encode_scalar(c as u32));
}

/// A boundary lies within the byte sequence.
pub proof fn lemma_boundary_in_range(bs: Seq<u8>, x: int)
    requires
        valid_utf8(bs),
        is_char_boundary(bs, x),
    ensures
        0 <= x <= bs.len(),
    decreases bs.len(),
{
    if x != 0 {
        reveal_with_fuel(is_char_boundary, 2);
    }
}

/// The end of the encoding of a prefix is a boundary of the whole encoding.
pub proof fn lemma_prefix_boundary(a: Seq<char>, b: Seq<char>)
    ensures
        is_char_boundary(encode_utf8(a + b), encode_utf8(a).len() as int),
    decreases a.len(),
{
    encode_utf8_valid_utf8(a + b);
    if a.len() == 0 {
        assert(encode_utf8(a).len() == 0);
    } else {
        let bytes = encode_utf8(a + b);
        lemma_encode_concat(a, b);
        encode_utf8_first_scalar(a + b);
        assert((a + b)[0] == a[0]);
        assert((a + b).drop_first() =~= a.drop_first() + b);
        assert(pop_first_scalar(bytes) =~= encode_utf8(a.drop_first() + b));
        lemma_encode_concat(a.drop_first(), b);
        lemma_prefix_boundary(a.drop_first(), b);
        lemma_bytes_empty(a);
        reveal_with_fuel(is_char_boundary, 2);
    }
}

/// Splicing the encoding of `ins` into `line` at a boundary `x` leaves `x`
/// a boundary and makes the end of the spliced bytes one; `new` is the
/// resulting text.
pub proof fn lemma_splice_boundaries(line: Seq<char>, x: int, ins: Seq<char>, new: Seq<char>)
    requires
        is_boundary(line, x),
        encode_utf8(new) == splice(encode_utf8(line), x, encode_utf8(ins)),
    ensures
        is_boundary(new, x),
        is_boundary(new, x + encode_utf8(ins).len()),
        0 <= x <= encode_utf8(line).len(),
{
    let bs = encode_utf8(line);
    encode_utf8_valid_utf8(line);
    lemma_boundary_in_range(bs, x);
    valid_utf8_split(bs, x);
    assert(bs.subrange(0, x) =~= bs.take(x));
    assert(bs.subrange(x, bs.len() as int) =~= bs.skip(x));
    decode_utf8_encode_utf8(bs.take(x));
    decode_utf8_encode_utf8(bs.skip(x));
    let p = decode_utf8(bs.take(x));
    let q = decode_utf8(bs.skip(x));
    lemma_encode_concat(p, ins);
    lemma_encode_concat(p + ins, q);
    lemma_encode_concat(ins, q);
    lemma_encode_concat(p, ins + q);
    assert(p + ins + q =~= p + (ins + q));
    lemma_encode_injective(new, p + ins + q);
    lemma_prefix_boundary(p, ins + q);
    lemma_prefix_boundary(p + ins, q);
}

/// Inserts `c` at byte `idx` of `s` (`String::insert`).
///
/// std documents that the character goes in at that byte position and that
/// the call panics where `idx` is past the end or not on a character
/// boundary; the contract says the bytes of `c` are spliced in there.
#[verifier::external_body]
pub(crate) fn string_insert(s: &mut String, idx: usize, c: char)
    requires
        is_boundary(old(s)@, idx as int),
    ensures
        bytes_of(final(s)@) == splice(bytes_of(old(s)@), idx as int, char_bytes(c)),
{
    s.insert(idx, c);
}

/// Splits `s` at byte `at` (`String::split_off`): `s` keeps the bytes before
/// `at` and the rest is returned. std panics where `at` is not a boundary.
#[verifier::external_body]
pub(crate) fn string_split_off(s: &mut String, at: usize) -> (rest: String)
    requires
        is_boundary(old(s)@, at as int),
    ensures
        bytes_of(final(s)@) == bytes_of(old(s)@).take(at as int),
        bytes_of(rest@) == bytes_of(old(s)@).skip(at as int),
{
    s.split_off(at)
}

/// Removes the character that starts at byte `idx` of `s` and returns it
/// (`String::remove`). std panics where `idx` is at or past the end or not on
/// a character boundary. The contract describes the removed character by
/// the UTF-8 decoding of the bytes from `idx` on.
#[verifier::external_body]
pub(crate) fn string_remove(s: &mut String, idx: usize) -> (c: char)
    requires
        is_boundary(old(s)@, idx as int),
        idx < bytes_of(old(s)@).len(),
    ensures
        c == decode_first_scalar(bytes_of(old(s)@).skip(idx as int)) as char,
        bytes_of(final(s)@) == cut(
            bytes_of(old(s)@),
            idx as int,
            idx + char_width_at(bytes_of(old(s)@), idx as int),
        ),
{
    s.remove(idx)
}

/// Inserts `t` at byte `idx` of `s` (`String::insert_str`); std panics where
/// `idx` is not a boundary.
#[verifier::external_body]
pub(crate) fn string_insert_str(s: &mut String, idx: usize, t: &str)
    requires
        is_boundary(old(s)@, idx as int),
    ensures
        bytes_of(final(s)@) == splice(bytes_of(old(s)@), idx as int, bytes_of(t@)),
{
    s.insert_str(idx, t);
}

/// Appends `c` to `s` (`String::push`).
#[verifier::external_body]
pub(crate) fn string_push(s: &mut String, c: char)
    ensures
        final(s)@ == old(s)@.push(c),
{
    s.push(c);
}

/// Removes the last character of `s` and returns it, or `None` where `s` is
/// empty (`String::pop`).
#[verifier::external_body]
pub(crate) fn string_pop(s: &mut String) -> (c: Option<char>)
    ensures
        old(s)@.len() == 0 ==> c is None && final(s)@ == old(s)@,
        old(s)@.len() > 0 ==> c == Some(old(s)@.last()) && final(s)@ == old(s)@.drop_last(),
{
    s.pop()
}

/// The byte length of a string.
pub fn byte_len(s: &str) -> (n: usize)
    ensures
        n == bytes_of(s@).len(),
{
    s.as_bytes().len()
}

/// The bytes `from..to` of `s` as a new string.
pub fn substring(s: &str, from: usize, to: usize) -> (r: String)
    requires
        from <= to,
        is_boundary(s@, from as int),
        is_boundary(s@, to as int),
    ensures
        bytes_of(r@) == bytes_of(s@).subrange(from as int, to as int),
{
    proof {
        let bs = encode_utf8(s@);
        encode_utf8_valid_utf8(s@);
        lemma_boundary_in_range(bs, to as int);
        valid_utf8_split(bs, to as int);
        decode_utf8_split(bs, to as int);
        let head = bs.subrange(0, to as int);
        decode_utf8_encode_utf8(head);
        decode_utf8_encode_utf8(bs.subrange(to as int, bs.len() as int));
        lemma_encode_concat(decode_utf8(head), decode_utf8(bs.subrange(to as int, bs.len() as int)));
        lemma_boundary_of_prefix(bs, to as int, from as int);
    }
    let (head, _) = s.split_at(to);
    let (_, mid) = head.split_at(from);
    mid.to_owned()
}

/// A boundary of a valid byte sequence that lies before a cut point is a
/// boundary of the prefix up to that cut point.
pub proof fn lemma_boundary_of_prefix(bs: Seq<u8>, to: int, from: int)
    requires
        valid_utf8(bs),
        is_char_boundary(bs, to),
        is_char_boundary(bs, from),
        0 <= from <= to,
    ensures
        valid_utf8(bs.subrange(0, to)),
        is_char_boundary(bs.subrange(0, to), from),
    decreases bs.len(),
{
    lemma_boundary_in_range(bs, to);
    valid_utf8_split(bs, to);
    let p = bs.subrange(0, to);
    if from == 0 {
    } else {
        reveal_with_fuel(is_char_boundary, 2);
        let w = length_of_first_scalar(bs);
        let rest = pop_first_scalar(bs);
        assert(from >= w) by {
            reveal_with_fuel(is_char_boundary, 2);
        }
        assert(to >= w);
        valid_utf8_split(bs, w);
        assert(rest =~= bs.subrange(w, bs.len() as int));
        lemma_boundary_of_prefix(rest, to - w, from - w);
        assert(p.subrange(0, w) =~= bs.subrange(0, w));
        assert(pop_first_scalar(p) =~= rest.subrange(0, to - w));
    }
}


/// The byte after a character that starts on a boundary is again a boundary.
pub proof fn lemma_next_boundary(b: Seq<u8>, i: int)
    requires
        valid_utf8(b),
        is_char_boundary(b, i),
        0 <= i < b.len(),
    ensures
        0 < char_width_at(b, i),
        i + char_width_at(b, i) <= b.len(),
        is_char_boundary(b, i + char_width_at(b, i)),
    decreases b.len(),
{
    reveal_with_fuel(is_char_boundary, 2);
    let w = length_of_first_scalar(b);
    let rest = pop_first_scalar(b);
    if i == 0 {
        assert(b.skip(0) =~= b);
        assert(rest.len() == b.len() - w);
        assert(is_char_boundary(rest, 0));
    } else {
        assert(rest.len() == b.len() - w);
        lemma_next_boundary(rest, i - w);
        assert(rest.skip(i - w) =~= b.skip(i));
    }
}

/// A byte below 0x80 of a valid encoding starts a character, and so does the byte after it.
pub proof fn lemma_ascii_boundary(b: Seq<u8>, i: int)
    requires
        valid_utf8(b),
        0 <= i < b.len(),
        b[i] < 0x80,
    ensures
        is_char_boundary(b, i),
        is_char_boundary(b, i + 1),
        char_width_at(b, i) == 1,
{
    is_char_boundary_iff_is_leading_byte(b, i);
    assert(b.skip(i)[0] == b[i]);
    lemma_next_boundary(b, i);
}

/// The byte of a line feed (`'\n'`).
pub open spec fn lf_byte() -> u8 {
    10u8
}

/// The byte of a carriage return (`'\r'`).
pub open spec fn cr_byte() -> u8 {
    13u8
}

/// The bytes of `'\n'`, `'\r'` and `' '` are their codes.
pub proof fn lemma_ascii_char_bytes()
    ensures
        char_bytes('\n') == seq![10u8],
        char_bytes('\r') == seq![13u8],
        char_bytes(' ') == seq![32u8],
{
    lemma_char_bytes('\n');
    lemma_char_bytes('\r');
    lemma_char_bytes(' ');
    assert(((10u32 & 0x7F) as u8) == 10u8) by (bit_vector);
    assert(((13u32 & 0x7F) as u8) == 13u8) by (bit_vector);
    assert(((32u32 & 0x7F) as u8) == 32u8) by (bit_vector);
    assert(encode_scalar(10u32) =~= seq![10u8]);
    assert(encode_scalar(13u32) =~= seq![13u8]);
    assert(encode_scalar(32u32) =~= seq![32u8]);
}

/// The first line feed at or after byte `from`, or the length when there is none.
pub open spec fn next_newline(t: Seq<u8>, from: int) -> int
    decreases t.len() - from,
{
    if from < 0 || from >= t.len() {
        t.len() as int
    } else if t[from] == lf_byte() {
        from
    } else {
        next_newline(t, from + 1)
    }
}

/// Where the next line feed lies.
pub proof fn lemma_next_newline(t: Seq<u8>, from: int)
    requires
        0 <= from <= t.len(),
    ensures
        from <= next_newline(t, from) <= t.len(),
        next_newline(t, from) < t.len() ==> t[next_newline(t, from)] == lf_byte(),
        forall|k: int| from <= k < next_newline(t, from) ==> t[k] != lf_byte(),
    decreases t.len() - from,
{
    if from < t.len() && t[from] != lf_byte() {
        lemma_next_newline(t, from + 1);
    }
}

/// A line feed at `j` with none in `from..j` is the next one after `from`.
pub proof fn lemma_next_newline_is(t: Seq<u8>, from: int, j: int)
    requires
        0 <= from <= j <= t.len(),
        forall|k: int| from <= k < j ==> t[k] != lf_byte(),
        j == t.len() || t[j] == lf_byte(),
    ensures
        next_newline(t, from) == j,
    decreases j - from,
{
    if from < j {
        lemma_next_newline_is(t, from + 1, j);
    }
}

/// `s` without one trailing carriage return.
pub open spec fn strip_cr(s: Seq<u8>) -> Seq<u8> {
    if s.len() > 0 && s.last() == cr_byte() {
        s.drop_last()
    } else {
        s
    }
}

/// The lines of `t` from byte `from` on, where a line ends at a line feed and
/// a carriage return right before that line feed belongs to the terminator;
/// the text after the last line feed is the last line.
pub open spec fn crlf_lines_from(t: Seq<u8>, from: int) -> Seq<Seq<u8>>
    decreases t.len() - from,
{
    if from < 0 || from > t.len() {
        seq![]
    } else {
        let j = next_newline(t, from);
        if j >= t.len() {
            seq![t.subrange(from, t.len() as int)]
        } else {
            proof {
                lemma_next_newline(t, from);
            }
            seq![strip_cr(t.subrange(from, j))] + crlf_lines_from(t, j + 1)
        }
    }
}

/// The pieces of `t` between line feeds once every `"\r\n"` has become
/// `"\n"`, as `str::replace("\r\n", "\n")` followed by `split('\n')` gives them.
pub open spec fn crlf_lines(t: Seq<u8>) -> Seq<Seq<u8>> {
    crlf_lines_from(t, 0)
}

/// The bytes of each string.
pub open spec fn strings_bytes(v: Seq<String>) -> Seq<Seq<u8>> {
    Seq::new(v.len(), |i: int| bytes_of(v[i]@))
}

/// Splits `text` into the lines that `crlf_lines` describes.
pub fn split_newlines(text: &str) -> (parts: Vec<String>)
    ensures
        strings_bytes(parts@) == crlf_lines(bytes_of(text@)),
        parts@.len() >= 1,
{
    let bytes = text.as_bytes();
    let n = bytes.len();
    let ghost t = bytes_of(text@);
    proof {
        encode_utf8_valid_utf8(text@);
        is_char_boundary_start_end_of_seq(t);
    }
    let mut parts: Vec<String> = Vec::new();
    let mut start: usize = 0;
    let mut j: usize = 0;
    while j < n
        invariant
            bytes@ == t,
            t == bytes_of(text@),
            n == t.len(),
            valid_utf8(t),
            is_char_boundary(t, t.len() as int),
            0 <= start <= j <= n,
            is_char_boundary(t, start as int),
            forall|k: int| start <= k < j ==> t[k] != lf_byte(),
            strings_bytes(parts@) + crlf_lines_from(t, start as int) == crlf_lines(t),
        decreases n - j,
    {
        if bytes[j] == 10 {
            proof {
                lemma_next_newline_is(t, start as int, j as int);
                lemma_ascii_boundary(t, j as int);
            }
            let end = if j > start && bytes[j - 1] == 13 {
                proof {
                    lemma_ascii_boundary(t, j - 1);
                }
                j - 1
            } else {
                j
            };
            let piece = substring(text, start, end);
            let ghost old_parts = parts@;
            parts.push(piece);
            proof {
                assert(bytes_of(piece@) == strip_cr(t.subrange(start as int, j as int)));
                assert(crlf_lines_from(t, start as int) == seq![strip_cr(t.subrange(start as int, j as int))]
                    + crlf_lines_from(t, j + 1));
                assert(strings_bytes(parts@) =~= strings_bytes(old_parts) + seq![bytes_of(piece@)]);
                assert(strings_bytes(parts@) + crlf_lines_from(t, j + 1) =~= strings_bytes(old_parts)
                    + crlf_lines_from(t, start as int));
            }
            start = j + 1;
        }
        j += 1;
    }
    proof {
        lemma_next_newline_is(t, start as int, n as int);
    }
    let last = substring(text, start, n);
    let ghost old_parts = parts@;
    parts.push(last);
    proof {
        assert(crlf_lines_from(t, start as int) == seq![t.subrange(start as int, n as int)]);
        assert(strings_bytes(parts@) =~= strings_bytes(old_parts) + seq![bytes_of(last@)]);
    }
    parts
}

/// Whether two strings are equal.
pub fn str_eq(a: &str, b: &str) -> (r: bool)
    ensures
        r == (a@ == b@),
{
    let x = a.as_bytes();
    let y = b.as_bytes();
    let n = x.len();
    if n != y.len() {
        proof {
            if a@ == b@ {
                assert(x@ == y@);
            }
        }
        return false;
    }
    let mut i: usize = 0;
    while i < n
        invariant
            x@ == bytes_of(a@),
            y@ == bytes_of(b@),
            n == x@.len(),
            n == y@.len(),
            i <= n,
            forall|k: int| 0 <= k < i ==> x@[k] == y@[k],
        decreases n - i,
    {
        if x[i] != y[i] {
            return false;
        }
        i += 1;
    }
    proof {
        assert(x@ =~= y@);
        lemma_encode_injective(a@, b@);
    }
    true
}

/// What `Path::extension` gives for a path, when it is valid UTF-8.
pub uninterp spec fn path_extension_of(path: Seq<char>) -> Option<Seq<char>>;

/// The extension of the last component of `path` (`Path::extension`, kept
/// only when it is valid UTF-8, which any part of a `&str` is).
#[verifier::external_body]
pub(crate) fn path_extension(path: &str) -> (ext: Option<String>)
    ensures
        match ext {
            Some(e) => path_extension_of(path@) == Some(e@),
            None => path_extension_of(path@) is None,
        },
{
    std::path::Path::new(path).extension().and_then(|e| e.to_str()).map(|e| e.to_string())
}

/// What `str::to_lowercase` gives for a string.
pub uninterp spec fn lowercase_of(s: Seq<char>) -> Seq<char>;

/// `s` with its ASCII capitals made small and everything else kept.
pub open spec fn ascii_lowercase(s: Seq<char>) -> Seq<char> {
    Seq::new(s.len(), |i: int| if 'A' <= s[i] <= 'Z' { ((s[i] as u32) + 32) as char } else { s[i] })
}

/// Every character of `s` is ASCII.
pub open spec fn all_ascii(s: Seq<char>) -> bool {
    forall|i: int| 0 <= i < s.len() ==> (s[i] as u32) < 0x80
}

/// The lowercase form of `s` by Unicode's rules (`str::to_lowercase`);
/// on ASCII text that is each capital made small.
#[verifier::external_body]
pub(crate) fn to_lowercase(s: &str) -> (r: String)
    ensures
        r@ == lowercase_of(s@),
        all_ascii(s@) ==> r@ == ascii_lowercase(s@),
{
    s.to_lowercase()
}

/// Whether `c` has Unicode's `White_Space` property, which `char::is_whitespace`
/// reports: the controls from tab to carriage return, space, next line,
/// no-break space, ogham space mark, the spaces from en quad to hair space,
/// line and paragraph separator, narrow no-break space, medium mathematical
/// space and ideographic space.
pub open spec fn is_whitespace_char(c: char) -> bool {
    let u = c as u32;
    ||| 0x09 <= u <= 0x0D
    ||| u == 0x20
    ||| u == 0x85
    ||| u == 0xA0
    ||| u == 0x1680
    ||| 0x2000 <= u <= 0x200A
    ||| u == 0x2028
    ||| u == 0x2029
    ||| u == 0x202F
    ||| u == 0x205F
    ||| u == 0x3000
}

/// Whether `c` is whitespace (`char::is_whitespace`).
pub fn is_whitespace(c: char) -> (r: bool)
    ensures
        r == is_whitespace_char(c),
{
    let u = c as u32;
    (0x09 <= u && u <= 0x0D) || u == 0x20 || u == 0x85 || u == 0xA0 || u == 0x1680 || (0x2000 <= u && u
        <= 0x200A) || u == 0x2028 || u == 0x2029 || u == 0x202F || u == 0x205F || u == 0x3000
}

/// An ASCII letter or digit.
pub open spec fn is_ascii_alphanumeric(c: char) -> bool {
    ('0' <= c <= '9') || ('a' <= c <= 'z') || ('A' <= c <= 'Z')
}

/// What `char::is_alphanumeric` says of a character (Unicode `Alphabetic` or `Numeric`).
pub uninterp spec fn is_alphanumeric_char(c: char) -> bool;

/// Whether `c` is alphabetic or numeric by Unicode's properties
/// (`char::is_alphanumeric`).
#[verifier::external_body]
pub(crate) fn is_alphanumeric(c: char) -> (r: bool)
    ensures
        r == is_alphanumeric_char(c),
        is_ascii_alphanumeric(c) ==> r,
        (c as u32) < 0x80 && !is_ascii_alphanumeric(c) ==> !r,
{
    c.is_alphanumeric()
}

/// A character that belongs to an identifier-like word.
pub open spec fn is_word_char(c: char) -> bool {
    is_alphanumeric_char(c) || c == '_'
}

} // verus!
