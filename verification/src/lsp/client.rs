//! The bookkeeping of a language-server connection: numbering requests
//! and finding the request an answer belongs to, the document version, and
//! framing each message and reading the header lines of those that come.
use vstd::prelude::*;
use std::collections::HashMap;
use crate::text::{byte_len, bytes_of, is_whitespace, is_whitespace_char, string_push};

verus! {

broadcast use vstd::std_specs::hash::group_hash_axioms;

/// What a request asked for, kept until its answer comes.
#[derive(Debug, Clone, Copy, PartialEq, Eq, Structural)]
pub enum Request {
    Initialize,
    Completion,
    Hover(usize, usize),
    SemanticTokens,
}

/// The server's state of health.
#[derive(Debug, Clone, Copy, PartialEq, Eq, Structural)]
pub enum LspStatus {
    Initializing,
    Alive,
    Offline,
}

/// The requests still waiting for an answer, the number the next request
/// gets, and the version of the open document.
#[derive(Debug)]
pub struct RequestTable {
    pub next_id: u32,
    pub version: i32,
    pub pending: HashMap<u32, Request>,
}

impl RequestTable {
    /// Every waiting request has a number below the next one.
    pub open spec fn wf(&self) -> bool {
        forall|id: u32| #[trigger] self.pending@.contains_key(id) ==> id < self.next_id
    }

    /// A new table: the first request is number 1, the document is at
    /// version 1, nothing waits.
    pub fn new() -> (t: RequestTable)
        ensures
            t.wf(),
            t.next_id == 1,
            t.version == 1,
            t.pending@ == Map::<u32, Request>::empty(),
    {
        RequestTable { next_id: 1, version: 1, pending: HashMap::new() }
    }

    /// Numbers `request` and keeps it until its answer comes. Returns its
    /// number.
    pub fn issue(&mut self, request: Request) -> (id: u32)
        requires
            old(self).wf(),
            old(self).next_id < u32::MAX,
        ensures
            id == old(self).next_id,
            !old(self).pending@.contains_key(id),
            final(self).wf(),
            final(self).next_id == id + 1,
            final(self).version == old(self).version,
            final(self).pending@ == old(self).pending@.insert(id, request),
    {
        let id = self.next_id;
        self.next_id = id + 1;
        self.pending.insert(id, request);
        id
    }

    /// The request an answer numbered `id` (read as a JSON number, cut to
    /// 32 bits) belongs to, no longer waiting.
    pub fn take_answer(&mut self, id: Option<u64>) -> (request: Option<Request>)
        ensures
            match id {
                Some(n) => {
                    &&& request == old(self).pending@.get(n as u32)
                    &&& final(self).pending@ == old(self).pending@.remove(n as u32)
                },
                None => request is None && final(self).pending@ == old(self).pending@,
            },
            final(self).next_id == old(self).next_id,
            final(self).version == old(self).version,
            old(self).wf() ==> final(self).wf(),
    {
        match id {
            Some(n) => {
                let key = n as u32;
                self.pending.remove(&key)
            },
            None => None,
        }
    }

    /// Moves the document to its next version, for a change notice.
    /// Returns the new version.
    pub fn next_version(&mut self) -> (v: i32)
        requires
            old(self).version < i32::MAX,
        ensures
            v == old(self).version + 1,
            *final(self) == (RequestTable { version: v, ..*old(self) }),
    {
        self.version = self.version + 1;
        self.version
    }
}

/// Whether an answer to `request` is passed on: a completion answer only
/// when it holds a result.
pub open spec fn answer_kept(request: Request, has_result: bool) -> bool {
    !(request is Completion && !has_result)
}

/// Whether an answer to `request` is passed on: a completion answer only
/// when it holds a result.
pub fn keeps_answer(request: Request, has_result: bool) -> (kept: bool)
    ensures
        kept == answer_kept(request, has_result),
{
    match request {
        Request::Completion => has_result,
        _ => true,
    }
}

/// What a message from the server is, by its method and its number.
#[derive(Debug, Clone, Copy, PartialEq, Eq, Structural)]
pub enum Route {
    /// Problems the server found in a file.
    Diagnostics,
    /// The answer to a waiting request.
    Answer(Request),
    /// Nothing the editor reads.
    Drop,
}

/// The method by which the server reports problems in a file.
pub open spec fn diagnostics_method() -> Seq<char> {
    "textDocument/publishDiagnostics"@
}

/// Where a message with `method`, number `id` and a result or not goes, in
/// a table of waiting requests `t` (see `take_answer`).
pub open spec fn route_of(t: RequestTable, method: Option<Seq<char>>, id: Option<u64>, has_result: bool) -> Route {
    if method == Some(diagnostics_method()) {
        Route::Diagnostics
    } else {
        match id {
            Some(n) => match t.pending@.get(n as u32) {
                Some(request) => if answer_kept(request, has_result) {
                    Route::Answer(request)
                } else {
                    Route::Drop
                },
                None => Route::Drop,
            },
            None => Route::Drop,
        }
    }
}

impl RequestTable {
    /// Where a message from the server goes: reported problems, or the
    /// answer to a waiting request (which then no longer waits; a
    /// completion answer without a result is dropped).
    pub fn route(&mut self, method: Option<&str>, id: Option<u64>, has_result: bool) -> (r: Route)
        ensures
            r == route_of(
                *old(self),
                match method {
                    Some(m) => Some(m@),
                    None => None,
                },
                id,
                has_result,
            ),
            method matches Some(m) && m@ == diagnostics_method() ==> final(self).pending@ == old(self).pending@,
            !(method matches Some(m) && m@ == diagnostics_method()) ==> match id {
                Some(n) => final(self).pending@ == old(self).pending@.remove(n as u32),
                None => final(self).pending@ == old(self).pending@,
            },
            final(self).next_id == old(self).next_id,
            final(self).version == old(self).version,
            old(self).wf() ==> final(self).wf(),
    {
        proof {
            reveal_strlit("textDocument/publishDiagnostics");
        }
        if let Some(m) = method {
            if crate::text::str_eq(m, "textDocument/publishDiagnostics") {
                return Route::Diagnostics;
            }
        }
        match self.take_answer(id) {
            Some(request) => if keeps_answer(request, has_result) {
                Route::Answer(request)
            } else {
                Route::Drop
            },
            None => Route::Drop,
        }
    }
}

/// A header line of a message from the server.
#[derive(Debug, Clone, Copy, PartialEq, Eq, Structural)]
pub enum HeaderLine {
    /// The empty line that ends the header.
    End,
    /// The length of the body.
    Length(usize),
    /// Any other header.
    Other,
}

/// The value of a string of decimal digits.
pub open spec fn digits_value(s: Seq<char>) -> int
    decreases s.len(),
{
    if s.len() == 0 {
        0
    } else {
        digits_value(s.drop_last()) * 10 + (s.last() as int - '0' as int)
    }
}

/// `c` is an ASCII digit.
pub open spec fn is_digit(c: char) -> bool {
    '0' as int <= c as int <= '9' as int
}

/// Every character of `s` is an ASCII digit.
pub open spec fn all_digits(s: Seq<char>) -> bool {
    forall|i: int| 0 <= i < s.len() ==> is_digit(#[trigger] s[i])
}

/// `s` read as a `usize` the way `str::parse` reads it: an optional `+`,
/// then at least one digit and nothing else, within range.
pub open spec fn parsed_usize(s: Seq<char>) -> Option<int> {
    let d = if s.len() > 0 && s[0] == '+' {
        s.drop_first()
    } else {
        s
    };
    if d.len() > 0 && all_digits(d) && digits_value(d) <= usize::MAX {
        Some(digits_value(d))
    } else {
        None
    }
}

/// The number of leading characters of `s` from `i` on that are whitespace.
pub open spec fn leading_ws_from(s: Seq<char>, i: int) -> int
    decreases s.len() - i,
{
    if i < 0 || i >= s.len() || !is_whitespace_char(s[i]) {
        i
    } else {
        leading_ws_from(s, i + 1)
    }
}

/// Where the trailing whitespace of `s` before index `j` begins, not going
/// below `lo`.
pub open spec fn trailing_ws_before(s: Seq<char>, lo: int, j: int) -> int
    decreases j - lo,
{
    if j <= lo || j > s.len() || !is_whitespace_char(s[j - 1]) {
        j
    } else {
        trailing_ws_before(s, lo, j - 1)
    }
}

/// `s` without leading and trailing whitespace (`str::trim`).
pub open spec fn trimmed(s: Seq<char>) -> Seq<char> {
    let lo = leading_ws_from(s, 0);
    s.subrange(lo, trailing_ws_before(s, lo, s.len() as int))
}

/// What a header line says: `"\r\n"` ends the header, and a
/// `Content-Length:` line gives the body's length (0 where its value does
/// not read as a number).
pub open spec fn header_of(line: Seq<char>) -> HeaderLine {
    let key = "Content-Length:"@;
    if line == "\r\n"@ {
        HeaderLine::End
    } else if key.is_prefix_of(line) {
        match parsed_usize(trimmed(line.skip(key.len() as int))) {
            Some(n) => HeaderLine::Length(n as usize),
            None => HeaderLine::Length(0),
        }
    } else {
        HeaderLine::Other
    }
}

proof fn lemma_leading_ws(s: Seq<char>, i: int)
    requires
        0 <= i <= s.len(),
    ensures
        i <= leading_ws_from(s, i) <= s.len(),
    decreases s.len() - i,
{
    if i < s.len() && is_whitespace_char(s[i]) {
        lemma_leading_ws(s, i + 1);
    }
}

proof fn lemma_trailing_ws(s: Seq<char>, lo: int, j: int)
    requires
        0 <= lo <= j <= s.len(),
    ensures
        lo <= trailing_ws_before(s, lo, j) <= j,
    decreases j - lo,
{
    if j > lo && is_whitespace_char(s[j - 1]) {
        lemma_trailing_ws(s, lo, j - 1);
    }
}

/// `s` without leading and trailing whitespace.
pub fn trim(s: &str) -> (t: String)
    ensures
        t@ == trimmed(s@),
{
    let n = s.unicode_len();
    let mut lo: usize = 0;
    while lo < n && is_whitespace(s.get_char(lo))
        invariant
            n == s@.len(),
            lo <= n,
            leading_ws_from(s@, 0) == leading_ws_from(s@, lo as int),
        decreases n - lo,
    {
        lo += 1;
    }
    let mut hi: usize = n;
    while hi > lo && is_whitespace(s.get_char(hi - 1))
        invariant
            n == s@.len(),
            lo <= hi <= n,
            lo == leading_ws_from(s@, 0),
            trailing_ws_before(s@, lo as int, n as int) == trailing_ws_before(s@, lo as int, hi as int),
        decreases hi,
    {
        hi -= 1;
    }
    s.substring_char(lo, hi).to_string()
}

/// `s` read as a `usize` the way `str::parse` reads it.
pub fn parse_usize(s: &str) -> (r: Option<usize>)
    ensures
        match r {
            Some(v) => parsed_usize(s@) == Some(v as int),
            None => parsed_usize(s@) is None,
        },
{
    let n = s.unicode_len();
    let start: usize = if n > 0 && s.get_char(0) == '+' {
        1
    } else {
        0
    };
    let ghost d = if s@.len() > 0 && s@[0] == '+' {
        s@.drop_first()
    } else {
        s@
    };
    if start == n {
        return None;
    }
    let mut value: usize = 0;
    let mut i: usize = start;
    while i < n
        invariant
            n == s@.len(),
            start <= i <= n,
            start < n,
            d == s@.subrange(start as int, n as int),
            d == (if s@.len() > 0 && s@[0] == '+' {
                s@.drop_first()
            } else {
                s@
            }),
            all_digits(s@.subrange(start as int, i as int)),
            value == digits_value(s@.subrange(start as int, i as int)),
        decreases n - i,
    {
        let c = s.get_char(i);
        proof {
            assert(s@.subrange(start as int, i + 1).drop_last() =~= s@.subrange(start as int, i as int));
        }
        if c < '0' || c > '9' {
            proof {
                assert(d[i - start] == c);
                assert(!is_digit(d[i - start]));
            }
            return None;
        }
        let digit = (c as u32 - '0' as u32) as usize;
        proof {
            let p = s@.subrange(start as int, i + 1);
            assert(p.drop_last() =~= s@.subrange(start as int, i as int));
            assert(p.last() == c);
            assert(all_digits(p));
            assert(digits_value(p) == value * 10 + digit);
        }
        if value > (usize::MAX - digit) / 10 {
            proof {
                assert(value * 10 + digit > usize::MAX);
                assert(d.subrange(0, i + 1 - start) =~= s@.subrange(start as int, i + 1));
                if all_digits(d) {
                    lemma_digits_monotone(d, (i + 1 - start) as int);
                }
            }
            return None;
        }
        value = value * 10 + digit;
        i += 1;
    }
    proof {
        assert(d =~= s@.subrange(start as int, n as int));
    }
    Some(value)
}

/// Reading more digits never gives a smaller value.
proof fn lemma_digits_monotone(d: Seq<char>, k: int)
    requires
        0 <= k <= d.len(),
        all_digits(d.subrange(0, k)),
        all_digits(d),
    ensures
        digits_value(d.subrange(0, k)) <= digits_value(d),
    decreases d.len() - k,
{
    if k < d.len() {
        assert(all_digits(d.subrange(0, k + 1)));
        lemma_digits_monotone(d, k + 1);
        assert(d.subrange(0, k + 1).drop_last() =~= d.subrange(0, k));
        lemma_digits_nonneg(d.subrange(0, k));
        assert(is_digit(d[k]));
        assert(d.subrange(0, k + 1).last() == d[k]);
    } else {
        assert(d.subrange(0, k) =~= d);
    }
}

/// A string of digits has a value of at least 0.
proof fn lemma_digits_nonneg(d: Seq<char>)
    requires
        all_digits(d),
    ensures
        digits_value(d) >= 0,
    decreases d.len(),
{
    if d.len() > 0 {
        assert(all_digits(d.drop_last()));
        lemma_digits_nonneg(d.drop_last());
    }
}

/// What a header line of a message from the server says.
pub fn header_line(line: &str) -> (h: HeaderLine)
    ensures
        h == header_of(line@),
{
    proof {
        reveal_strlit("\r\n");
        reveal_strlit("Content-Length:");
    }
    let n = line.unicode_len();
    if n == 2 && line.get_char(0) == '\r' && line.get_char(1) == '\n' {
        assert(line@ =~= "\r\n"@);
        return HeaderLine::End;
    }
    let key = "Content-Length:";
    let k = key.unicode_len();
    if n < k {
        assert(!key@.is_prefix_of(line@));
        return HeaderLine::Other;
    }
    assert(line@ != "\r\n"@);
    let mut i: usize = 0;
    while i < k
        invariant
            k == key@.len(),
            k <= n,
            n == line@.len(),
            line@ != "\r\n"@,
            key@ == "Content-Length:"@,
            i <= k,
            forall|j: int| 0 <= j < i ==> key@[j] == line@[j],
        decreases k - i,
    {
        if key.get_char(i) != line.get_char(i) {
            assert(!key@.is_prefix_of(line@));
            return HeaderLine::Other;
        }
        i += 1;
    }
    assert(key@.is_prefix_of(line@)) by {
        assert(line@.subrange(0, k as int) =~= key@);
    }
    assert(line@ != "\r\n"@);
    let value = line.substring_char(k, n);
    assert(value@ =~= line@.skip(k as int));
    let t = trim(value);
    match parse_usize(t.as_str()) {
        Some(v) => HeaderLine::Length(v),
        None => HeaderLine::Length(0),
    }
}

/// An answer to a numbered request finds that request, and no other
/// request is dropped from the table.
pub proof fn law_answer_finds_request(t0: RequestTable, t1: RequestTable, t2: RequestTable, request: Request, id: u32, found: Option<Request>)
    requires
        t0.wf(),
        t1.pending@ == t0.pending@.insert(id, request),
        t2.pending@ == t1.pending@.remove(id),
        found == t1.pending@.get(id),
    ensures
        found == Some(request),
        t2.pending@ == t0.pending@.remove(id),
{
    assert(t2.pending@ =~= t0.pending@.remove(id));
}

/// Each request gets a number that no waiting request has.
pub proof fn law_numbers_are_fresh(t: RequestTable)
    requires
        t.wf(),
    ensures
        !t.pending@.contains_key(t.next_id),
{
}

/// The character of the decimal digit `d`.
pub open spec fn digit_char(d: int) -> char {
    (48 + d) as char
}

/// `n` in decimal digits, without leading zeros.
pub open spec fn decimal(n: nat) -> Seq<char>
    decreases n,
{
    if n < 10 {
        seq![digit_char(n as int)]
    } else {
        decimal(n / 10).push(digit_char((n % 10) as int))
    }
}

/// `n` in decimal digits.
pub fn to_decimal(n: usize) -> (s: String)
    ensures
        s@ == decimal(n as nat),
    decreases n,
{
    let c = (48 + (n % 10) as u8) as char;
    if n < 10 {
        let mut s = String::new();
        string_push(&mut s, c);
        assert(s@ =~= seq![c]);
        s
    } else {
        let mut s = to_decimal(n / 10);
        string_push(&mut s, c);
        s
    }
}

/// The header line that gives a body of `n` bytes.
pub open spec fn content_length_line(n: nat) -> Seq<char> {
    "Content-Length: "@ + decimal(n) + "\r\n"@
}

/// A message to the server with the body `body`: the line with the body's
/// length in bytes, the empty line that ends the header, then the body.
pub open spec fn framed(body: Seq<char>) -> Seq<char> {
    content_length_line(bytes_of(body).len()) + "\r\n"@ + body
}

/// The message that carries `body` to the server.
pub fn frame_message(body: &str) -> (m: String)
    ensures
        m@ == framed(body@),
{
    let mut m = String::from_str("Content-Length: ");
    let n = to_decimal(byte_len(body));
    m.append(n.as_str());
    m.append("\r\n");
    m.append("\r\n");
    m.append(body);
    m
}

/// The decimal digits of `n` are digits, begin with one, and read back as `n`.
proof fn lemma_decimal(n: nat)
    ensures
        decimal(n).len() >= 1,
        all_digits(decimal(n)),
        digits_value(decimal(n)) == n,
    decreases n,
{
    if n >= 10 {
        lemma_decimal(n / 10);
        let d = decimal(n);
        assert(d.drop_last() =~= decimal(n / 10));
        assert(d.last() == digit_char((n % 10) as int));
        assert(digit_char((n % 10) as int) as int == 48 + n % 10);
        assert(n == (n / 10) * 10 + n % 10);
        assert('0' as int == 48);
        assert(digits_value(d) == digits_value(d.drop_last()) * 10 + (d.last() as int - '0' as int));
        assert forall|i: int| 0 <= i < d.len() implies is_digit(#[trigger] d[i]) by {
            if i < d.len() - 1 {
                assert(d[i] == decimal(n / 10)[i]);
            }
        }
    } else {
        assert(decimal(n).drop_last() =~= Seq::<char>::empty());
        assert(digit_char(n as int) as int == 48 + n);
        assert('0' as int == 48);
        let d = decimal(n);
        assert(digits_value(d) == digits_value(d.drop_last()) * 10 + (d.last() as int - '0' as int));
    }
}

/// A digit is not whitespace.
proof fn lemma_digit_not_whitespace(c: char)
    requires
        is_digit(c),
    ensures
        !is_whitespace_char(c),
{
}

/// The length a framed message's header line gives is the length of the
/// body, and the line after it ends the header: what the reader of server
/// messages makes of the header that `frame_message` writes.
pub proof fn law_frame_header_reads_back(body: Seq<char>)
    requires
        bytes_of(body).len() <= usize::MAX,
    ensures
        header_of(content_length_line(bytes_of(body).len())) == HeaderLine::Length(bytes_of(body).len() as usize),
        header_of("\r\n"@) == HeaderLine::End,
{
    let n = bytes_of(body).len();
    let d = decimal(n);
    lemma_decimal(n);
    reveal_strlit("Content-Length: ");
    reveal_strlit("Content-Length:");
    reveal_strlit("\r\n");
    let line = content_length_line(n);
    let key = "Content-Length:"@;
    assert(line.len() == 16 + d.len() + 2);
    assert(line != "\r\n"@);
    assert(key.is_prefix_of(line)) by {
        assert(line.subrange(0, key.len() as int) =~= key);
    }
    let rest = line.skip(key.len() as int);
    assert(rest =~= seq![' '] + d + seq!['\r', '\n']);
    let len = rest.len() as int;
    lemma_digit_not_whitespace(d[0]);
    assert(rest[1] == d[0]);
    assert(leading_ws_from(rest, 1) == 1);
    assert(leading_ws_from(rest, 0) == 1);
    lemma_digit_not_whitespace(d[d.len() - 1]);
    assert(rest[len - 3] == d[d.len() - 1]);
    assert(trailing_ws_before(rest, 1, len - 2) == len - 2);
    assert(trailing_ws_before(rest, 1, len - 1) == len - 2);
    assert(trailing_ws_before(rest, 1, len) == len - 2);
    assert(trimmed(rest) =~= d);
    assert(d[0] != '+');
    assert(parsed_usize(d) == Some(n as int));
}

} // verus!
