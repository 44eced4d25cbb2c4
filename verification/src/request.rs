//! Requests as the mock engine sees them, and the HTTP request parser.

use vstd::prelude::*;

use crate::strings::{chars_of, from_utf8_lossy, string_of, utf8_lossy};
use crate::strmap::{
    assoc_get, assoc_index, assoc_insert, lemma_assoc_index, lemma_assoc_index_same_keys, StrMap,
};
use crate::text::{
    ascii_lower, ascii_lower_exec, occurs_at, char_vecs, find, find_exec, index_of, nonempty, nonempty_exec,
    parse_usize, parse_usize_exec, slice_chars, split, split_exec, split_whitespace,
    split_whitespace_exec, trim, trim_exec,
};
use vstd::utf8::encode_utf8;

verus! {

/// The character sequences of a sequence of strings.
pub open spec fn strings_view(v: Seq<String>) -> Seq<Seq<char>> {
    v.map_values(|s: String| s@)
}

/// What the mock engine reads of a request.
pub trait ResolvableRequest {
    /// The request's action (for HTTP, its method).
    spec fn action_spec(&self) -> Option<Seq<char>>;

    /// The request's headers.
    spec fn headers_spec(&self) -> StrMap<String>;

    /// The request's body.
    spec fn body_spec(&self) -> Seq<char>;

    /// The request's route (for HTTP, its path).
    spec fn route_spec(&self) -> Seq<char>;

    /// The request's query parameters.
    spec fn query_spec(&self) -> StrMap<Vec<String>>;

    fn action(&self) -> (r: Option<&str>)
        ensures
            r matches Some(a) ==> self.action_spec() == Some(a@),
            r is None ==> self.action_spec() is None,
    ;

    fn headers(&self) -> (r: &StrMap<String>)
        ensures
            *r == self.headers_spec(),
    ;

    fn body(&self) -> (r: &str)
        ensures
            r@ == self.body_spec(),
    ;

    fn route(&self) -> (r: &str)
        ensures
            r@ == self.route_spec(),
    ;

    fn query(&self) -> (r: &StrMap<Vec<String>>)
        ensures
            *r == self.query_spec(),
    ;
}

/// A parsed HTTP request. `path` holds the path without its query string,
/// whose parameters are in `query`; header names are in lower case.
#[derive(Debug)]
pub struct HttpRequest {
    pub method: String,
    pub path: String,
    pub version: String,
    pub headers: StrMap<String>,
    pub body: String,
    pub query: StrMap<Vec<String>>,
}

impl ResolvableRequest for HttpRequest {
    open spec fn action_spec(&self) -> Option<Seq<char>> {
        Some(self.method@)
    }

    open spec fn headers_spec(&self) -> StrMap<String> {
        self.headers
    }

    open spec fn body_spec(&self) -> Seq<char> {
        self.body@
    }

    open spec fn route_spec(&self) -> Seq<char> {
        self.path@
    }

    open spec fn query_spec(&self) -> StrMap<Vec<String>> {
        self.query
    }

    fn action(&self) -> (r: Option<&str>) {
        Some(self.method.as_str())
    }

    fn headers(&self) -> (r: &StrMap<String>) {
        &self.headers
    }

    fn body(&self) -> (r: &str) {
        self.body.as_str()
    }

    fn route(&self) -> (r: &str) {
        self.path.as_str()
    }

    fn query(&self) -> (r: &StrMap<Vec<String>>) {
        &self.query
    }
}

// ---------------------------------------------------------------------------
// Query strings
// ---------------------------------------------------------------------------

/// The key and value of one query pair: the text before the first `=` and
/// the text after it, or the whole pair and an empty value when it has no `=`.
pub open spec fn query_pair(p: Seq<char>) -> (Seq<char>, Seq<char>) {
    match index_of(p, '=') {
        Some(i) => (p.subrange(0, i), p.subrange(i + 1, p.len() as int)),
        None => (p, Seq::empty()),
    }
}

/// `m` with `v` appended to the values of `k` (a new entry when `k` is absent).
pub open spec fn query_add(m: Seq<(Seq<char>, Seq<Seq<char>>)>, k: Seq<char>, v: Seq<char>) -> Seq<
    (Seq<char>, Seq<Seq<char>>),
> {
    let i = assoc_index(m, k);
    if i >= 0 {
        m.update(i, (k, m[i].1.push(v)))
    } else {
        m.push((k, seq![v]))
    }
}

/// The query parameters of the pairs `pairs`, in order.
pub open spec fn query_fold(pairs: Seq<Seq<char>>) -> Seq<(Seq<char>, Seq<Seq<char>>)>
    decreases pairs.len(),
{
    if pairs.len() == 0 {
        Seq::empty()
    } else {
        query_add(query_fold(pairs.drop_last()), query_pair(pairs.last()).0, query_pair(pairs.last()).1)
    }
}

/// The parameters of a query string: its non-empty `&`-separated pairs, each
/// value listed under its key in the order the pairs come.
pub open spec fn parse_query_spec(q: Seq<char>) -> Seq<(Seq<char>, Seq<Seq<char>>)> {
    query_fold(nonempty(split(q, seq!['&'])))
}

/// Query parameters with their values taken as character sequences.
pub open spec fn query_view(m: Seq<(Seq<char>, Vec<String>)>) -> Seq<(Seq<char>, Seq<Seq<char>>)> {
    m.map_values(|e: (Seq<char>, Vec<String>)| (e.0, strings_view(e.1@)))
}

/// Parses a query string (the part of a target after `?`).
pub fn parse_query(q: &str) -> (m: StrMap<Vec<String>>)
    ensures
        query_view(m@) == parse_query_spec(q@),
{
    let chars = chars_of(q);
    let amp = vec!['&'];
    assert(amp@ =~= seq!['&']);
    let pieces = split_exec(chars.as_slice(), amp.as_slice());
    let pairs = nonempty_exec(&pieces);
    let ghost all = char_vecs(pairs@);
    let eq = vec!['='];
    assert(eq@ =~= seq!['=']);
    let mut m: StrMap<Vec<String>> = StrMap::new();
    let mut i: usize = 0;
    while i < pairs.len()
        invariant
            i <= pairs.len(),
            all == char_vecs(pairs@),
            eq@ == seq!['='],
            query_view(m@) == query_fold(all.subrange(0, i as int)),
        decreases pairs.len() - i,
    {
        let pair = pairs[i].as_slice();
        assert(eq@.len() == 1);
        let eqs = eq.as_slice();
        assert(eqs@ == seq!['=']);
        let found = find_exec(pair, eqs);
        let (k, v) = match found {
            Some(j) => {
                assert(occurs_at(pair@, eqs@, j as int));
                assert(eqs@.len() == 1);
                assert(j + 1 <= pair@.len());
                let plen = pair.len();
                assert(j + 1 <= plen);
                let after: usize = j + 1;
                let key_part = slice_chars(pair, 0, j);
                let value_part = slice_chars(pair, after, pair.len());
                (key_part, value_part)
            },
            None => (slice_chars(pair, 0, pair.len()), Vec::new()),
        };
        assert(pair@ == all[i as int]);
        assert((k@, v@) == query_pair(all[i as int]));
        let key = string_of(k.as_slice());
        let value = string_of(v.as_slice());
        let ghost before = m@;
        proof {
            lemma_assoc_index_same_keys(before, query_view(before), key@);
            lemma_assoc_index(before, key@);
        }
        match m.index_of(key.as_str()) {
            Some(idx) => {
                let mut values = m.replace_value(idx, Vec::new());
                let ghost vbefore = values@;
                values.push(value);
                m.replace_value(idx, values);
                assert(strings_view(values@) =~= strings_view(vbefore).push(v@));
                assert(query_view(m@) =~= query_add(query_view(before), k@, v@));
            },
            None => {
                let mut values: Vec<String> = Vec::new();
                values.push(value);
                assert(strings_view(values@) =~= seq![v@]);
                m.insert(key, values);
                assert(query_view(m@) =~= query_add(query_view(before), k@, v@));
            },
        }
        i += 1;
        assert(all.subrange(0, i as int).drop_last() =~= all.subrange(0, i - 1));
    }
    assert(all.subrange(0, all.len() as int) =~= all);
    m
}

// ---------------------------------------------------------------------------
// Request heads
// ---------------------------------------------------------------------------

/// A line break.
pub open spec fn crlf() -> Seq<char> {
    seq!['\r', '\n']
}

/// The blank line that ends the head of a request.
pub open spec fn blank_line() -> Seq<char> {
    seq!['\r', '\n', '\r', '\n']
}

/// The name and value of a header line: the text before the first `:`,
/// trimmed and in ASCII lower case, and the text after it, trimmed. A line
/// without `:` is no header.
pub open spec fn header_line(line: Seq<char>) -> Option<(Seq<char>, Seq<char>)> {
    match index_of(line, ':') {
        Some(i) => Some(
            (
                ascii_lower(trim(line.subrange(0, i))),
                trim(line.subrange(i + 1, line.len() as int)),
            ),
        ),
        None => None,
    }
}

/// The headers of the header lines `lines`; a later line with a name that
/// came before replaces its value.
pub open spec fn header_fold(lines: Seq<Seq<char>>) -> Seq<(Seq<char>, Seq<char>)>
    decreases lines.len(),
{
    if lines.len() == 0 {
        Seq::empty()
    } else {
        let m = header_fold(lines.drop_last());
        match header_line(lines.last()) {
            Some((k, v)) => assoc_insert(m, k, v),
            None => m,
        }
    }
}

/// Entries with string values taken as character sequences.
pub open spec fn text_view(m: Seq<(Seq<char>, String)>) -> Seq<(Seq<char>, Seq<char>)> {
    m.map_values(|e: (Seq<char>, String)| (e.0, e.1@))
}

/// Inserting into a map of strings, seen through `text_view`.
pub proof fn lemma_text_view_insert(m: Seq<(Seq<char>, String)>, k: Seq<char>, v: String)
    ensures
        text_view(assoc_insert(m, k, v)) == assoc_insert(text_view(m), k, v@),
{
    lemma_assoc_index_same_keys(m, text_view(m), k);
    lemma_assoc_index(m, k);
    assert(text_view(assoc_insert(m, k, v)) =~= assoc_insert(text_view(m), k, v@));
}

/// The head of a request (before the first blank line) and its body (after it);
/// without a blank line, all of it is head.
pub open spec fn head_and_body(text: Seq<char>) -> (Seq<char>, Seq<char>) {
    match find(text, blank_line()) {
        Some(i) => (text.subrange(0, i), text.subrange(i + 4, text.len() as int)),
        None => (text, Seq::empty()),
    }
}

/// The lines of the head.
pub open spec fn head_lines(text: Seq<char>) -> Seq<Seq<char>> {
    split(head_and_body(text).0, crlf())
}

/// The whitespace-separated words of the start line.
pub open spec fn start_words(text: Seq<char>) -> Seq<Seq<char>> {
    split_whitespace(head_lines(text)[0])
}

/// The path of a request target: what precedes its first `?`.
pub open spec fn target_path(t: Seq<char>) -> Seq<char> {
    match index_of(t, '?') {
        Some(i) => t.subrange(0, i),
        None => t,
    }
}

/// The query parameters of a request target: those of what follows its first `?`.
pub open spec fn target_query(t: Seq<char>) -> Seq<(Seq<char>, Seq<Seq<char>>)> {
    match index_of(t, '?') {
        Some(i) => parse_query_spec(t.subrange(i + 1, t.len() as int)),
        None => Seq::empty(),
    }
}

/// Why a request could not be read.
#[derive(Debug)]
pub enum HttpParseError {
    MissingMethod,
    MissingPath,
    MissingVersion,
    HeadersTooLarge,
}

impl HttpParseError {
    /// A description of the error.
    pub fn message(&self) -> (m: &'static str)
        ensures
            m@ == parse_error_message(*self),
    {
        proof {
            reveal_strlit("Missing method");
            reveal_strlit("Missing path");
            reveal_strlit("Missing version");
            reveal_strlit("Http headers too large");
        }
        match self {
            HttpParseError::MissingMethod => "Missing method",
            HttpParseError::MissingPath => "Missing path",
            HttpParseError::MissingVersion => "Missing version",
            HttpParseError::HeadersTooLarge => "Http headers too large",
        }
    }
}

/// The description of each parse error.
pub open spec fn parse_error_message(e: HttpParseError) -> Seq<char> {
    match e {
        HttpParseError::MissingMethod => "Missing method"@,
        HttpParseError::MissingPath => "Missing path"@,
        HttpParseError::MissingVersion => "Missing version"@,
        HttpParseError::HeadersTooLarge => "Http headers too large"@,
    }
}

/// What is missing from the start line of `text`, if anything.
pub open spec fn start_line_error(text: Seq<char>) -> Option<HttpParseError> {
    let w = start_words(text);
    if w.len() == 0 {
        Some(HttpParseError::MissingMethod)
    } else if w.len() == 1 {
        Some(HttpParseError::MissingPath)
    } else if w.len() == 2 {
        Some(HttpParseError::MissingVersion)
    } else {
        None
    }
}

/// The request `r` is what the text `text` says: the first three words of
/// the start line give the method, the target and the version; the other
/// head lines give the headers; what follows the blank line is the body.
pub open spec fn request_from_text(r: HttpRequest, text: Seq<char>) -> bool {
    let w = start_words(text);
    &&& r.method@ == w[0]
    &&& r.path@ == target_path(w[1])
    &&& query_view(r.query@) == target_query(w[1])
    &&& r.version@ == w[2]
    &&& text_view(r.headers@) == header_fold(head_lines(text).drop_first())
    &&& r.body@ == head_and_body(text).1
}

/// The header of the line `line`.
fn header_line_exec(line: &[char]) -> (r: Option<(Vec<char>, Vec<char>)>)
    ensures
        r matches Some((k, v)) ==> header_line(line@) == Some((k@, v@)),
        r is None ==> header_line(line@) is None,
{
    let colon = vec![':'];
    let cs = colon.as_slice();
    assert(cs@ =~= seq![':']);
    match find_exec(line, cs) {
        Some(i) => {
            let n = line.len();
            assert(i + 1 <= n);
            let name = slice_chars(line, 0, i);
            let value = slice_chars(line, i + 1, n);
            let name_t = trim_exec(name.as_slice());
            let key = ascii_lower_exec(name_t.as_slice());
            let v = trim_exec(value.as_slice());
            Some((key, v))
        },
        None => None,
    }
}

impl HttpRequest {
    /// Parses the head of a request (and whatever part of its body came with
    /// it) from the bytes read so far, decoded as `String::from_utf8_lossy`
    /// decodes them. Fails when the start line has fewer than three words.
    pub fn parse_head(buffer: &[u8]) -> (r: Result<HttpRequest, HttpParseError>)
        ensures
            match start_line_error(utf8_lossy(buffer@)) {
                Some(e) => r == Err::<HttpRequest, HttpParseError>(e),
                None => r matches Ok(req) && request_from_text(req, utf8_lossy(buffer@)),
            },
    {
        let text_s = from_utf8_lossy(buffer);
        let text = chars_of(text_s.as_str());
        let ghost t = text@;
        let sep = vec!['\r', '\n', '\r', '\n'];
        assert(sep@ =~= blank_line());
        let (head, body) = match find_exec(text.as_slice(), sep.as_slice()) {
            Some(i) => {
                let n = text.len();
                assert(i + 4 <= n);
                (slice_chars(text.as_slice(), 0, i), slice_chars(text.as_slice(), i + 4, n))
            },
            None => (slice_chars(text.as_slice(), 0, text.len()), Vec::new()),
        };
        assert(text@.subrange(0, text@.len() as int) =~= text@);
        assert((head@, body@) == head_and_body(t));
        let nl = vec!['\r', '\n'];
        assert(nl@ =~= crlf());
        let lines = split_exec(head.as_slice(), nl.as_slice());
        let ghost ls = char_vecs(lines@);
        assert(ls == head_lines(t));
        assert(ls.len() > 0);
        let words = split_whitespace_exec(lines[0].as_slice());
        assert(char_vecs(words@) == start_words(t));
        if words.len() == 0 {
            return Err(HttpParseError::MissingMethod);
        }
        if words.len() == 1 {
            return Err(HttpParseError::MissingPath);
        }
        if words.len() == 2 {
            return Err(HttpParseError::MissingVersion);
        }
        let method = string_of(words[0].as_slice());
        let version = string_of(words[2].as_slice());
        let target = words[1].as_slice();
        let ghost w1 = target@;
        assert(w1 == start_words(t)[1]);
        // headers
        let mut headers: StrMap<String> = StrMap::new();
        let mut i: usize = 1;
        while i < lines.len()
            invariant
                1 <= i <= lines.len(),
                ls == char_vecs(lines@),
                text_view(headers@) == header_fold(ls.subrange(1, i as int)),
            decreases lines.len() - i,
        {
            let ghost before = headers@;
            match header_line_exec(lines[i].as_slice()) {
                Some((k, v)) => {
                    let key = string_of(k.as_slice());
                    let value = string_of(v.as_slice());
                    headers.insert(key, value);
                    proof {
                        lemma_text_view_insert(before, k@, value);
                    }
                },
                None => {},
            }
            i += 1;
            assert(ls.subrange(1, i as int).drop_last() =~= ls.subrange(1, i - 1));
        }
        assert(ls.subrange(1, ls.len() as int) =~= ls.drop_first());
        // target
        let q = vec!['?'];
        assert(q@ =~= seq!['?']);
        let (path, query) = match find_exec(target, q.as_slice()) {
            Some(j) => {
                let n = target.len();
                assert(j + 1 <= n);
                let p = string_of(slice_chars(target, 0, j).as_slice());
                let rest = string_of(slice_chars(target, j + 1, n).as_slice());
                (p, parse_query(rest.as_str()))
            },
            None => {
                let m: StrMap<Vec<String>> = StrMap::new();
                assert(query_view(m@) =~= Seq::empty());
                (string_of(target), m)
            },
        };
        let body_s = string_of(body.as_slice());
        Ok(HttpRequest { method, path, version, headers, body: body_s, query })
    }
}

// ---------------------------------------------------------------------------
// Reading a request
// ---------------------------------------------------------------------------

/// The most head bytes a request may have before it is refused.
pub const MAX_HEAD_BYTES: usize = 8388608;

/// What to do after a read from the connection.
#[derive(Debug, PartialEq, Eq, Structural)]
pub enum ReadStep {
    /// Stop reading: the peer closed, or the head is complete.
    Complete,
    /// Read more.
    Continue,
    /// Give up: the head is too large.
    TooLarge,
}

/// `bytes` holds a blank line (`\r\n\r\n`).
pub open spec fn has_blank_line(bytes: Seq<u8>) -> bool {
    exists|i: int| 0 <= i && i + 4 <= bytes.len() && #[trigger] bytes.subrange(i, i + 4) == seq![13u8, 10u8, 13u8, 10u8]
}

/// The length in bytes of the UTF-8 encoding of `s`, as `str::len` gives it.
pub open spec fn utf8_len(s: Seq<char>) -> usize {
    encode_utf8(s).len() as usize
}

/// The bytes a request's body still lacks: what its `content-length` header
/// asks for beyond the UTF-8 length of the body read so far; nothing when
/// the header is absent or not a number.
pub open spec fn missing_body_len(headers: Seq<(Seq<char>, String)>, body: Seq<char>) -> nat {
    match assoc_get(headers, "content-length"@) {
        Some(v) => match parse_usize(v@) {
            Some(n) => if utf8_len(body) < n {
                (n - utf8_len(body)) as nat
            } else {
                0
            },
            None => 0,
        },
        None => 0,
    }
}

impl HttpRequest {
    /// Decides, after a read of `last_read` bytes that left `buffer` holding
    /// all bytes read so far, whether to go on reading the head.
    pub fn read_step(buffer: &[u8], last_read: usize) -> (step: ReadStep)
        ensures
            last_read == 0 ==> step == ReadStep::Complete,
            last_read != 0 && has_blank_line(buffer@) ==> step == ReadStep::Complete,
            last_read != 0 && !has_blank_line(buffer@) && buffer@.len() > MAX_HEAD_BYTES ==> step
                == ReadStep::TooLarge,
            last_read != 0 && !has_blank_line(buffer@) && buffer@.len() <= MAX_HEAD_BYTES ==> step
                == ReadStep::Continue,
    {
        if last_read == 0 {
            return ReadStep::Complete;
        }
        let n = buffer.len();
        let mut i: usize = 0;
        while i < n && n - i >= 4
            invariant
                n == buffer@.len(),
                forall|j: int| 0 <= j < i && j + 4 <= n ==> #[trigger] buffer@.subrange(j, j + 4) != seq![13u8, 10u8, 13u8, 10u8],
            decreases n - i,
        {
            if buffer[i] == 13 && buffer[i + 1] == 10 && buffer[i + 2] == 13 && buffer[i + 3] == 10 {
                assert(buffer@.subrange(i as int, i + 4) =~= seq![13u8, 10u8, 13u8, 10u8]);
                return ReadStep::Complete;
            }
            assert(buffer@.subrange(i as int, i + 4)[0] == buffer@[i as int]);
            assert(buffer@.subrange(i as int, i + 4)[1] == buffer@[i + 1]);
            assert(buffer@.subrange(i as int, i + 4)[2] == buffer@[i + 2]);
            assert(buffer@.subrange(i as int, i + 4)[3] == buffer@[i + 3]);
            i += 1;
        }
        if n > MAX_HEAD_BYTES {
            ReadStep::TooLarge
        } else {
            ReadStep::Continue
        }
    }

    /// How many more body bytes to read, as the `content-length` header asks.
    pub fn missing_body_len(&self) -> (n: usize)
        ensures
            n == missing_body_len(self.headers@, self.body@),
    {
        proof {
            reveal_strlit("content-length");
        }
        match self.headers.get("content-length") {
            Some(v) => {
                let cs = chars_of(v.as_str());
                match parse_usize_exec(cs.as_slice()) {
                    Some(len) => {
                        let have = self.body.as_str().len();
                        assert(have == utf8_len(self.body@));
                        assert(parse_usize(v@) == Some(len));
                        if have < len {
                            len - have
                        } else {
                            0
                        }
                    },
                    None => 0,
                }
            },
            None => 0,
        }
    }

    /// Appends the rest of the body, read after the head, decoded as
    /// `String::from_utf8_lossy` decodes it.
    pub fn append_body(&mut self, rest: &[u8])
        ensures
            final(self).body@ == old(self).body@ + utf8_lossy(rest@),
            final(self).method == old(self).method,
            final(self).path == old(self).path,
            final(self).version == old(self).version,
            final(self).headers == old(self).headers,
            final(self).query == old(self).query,
    {
        let more = from_utf8_lossy(rest);
        let cs = chars_of(more.as_str());
        let mut i: usize = 0;
        let ghost start = self.body@;
        while i < cs.len()
            invariant
                i <= cs.len(),
                self.body@ == start + cs@.subrange(0, i as int),
                self.method == old(self).method,
                self.path == old(self).path,
                self.version == old(self).version,
                self.headers == old(self).headers,
                self.query == old(self).query,
            decreases cs.len() - i,
        {
            self.body.push(cs[i]);
            i += 1;
            assert(self.body@ =~= start + cs@.subrange(0, i as int));
        }
        assert(cs@.subrange(0, cs@.len() as int) =~= cs@);
    }
}

/// The path of a parsed request holds no `?`: the query string is split off.
pub proof fn law_target_path_has_no_query(t: Seq<char>)
    ensures
        crate::text::lacks(target_path(t), '?'),
{
    crate::text::lemma_find_from(t, seq!['?'], 0);
    match index_of(t, '?') {
        Some(i) => {
            assert forall|k: int| 0 <= k < i implies t[k] != '?' by {
                if t[k] == '?' {
                    assert(t.subrange(k, k + 1) =~= seq!['?']);
                    assert(crate::text::occurs_at(t, seq!['?'], k));
                }
            }
        },
        None => {
            assert forall|k: int| 0 <= k < t.len() implies t[k] != '?' by {
                if t[k] == '?' {
                    assert(t.subrange(k, k + 1) =~= seq!['?']);
                    assert(crate::text::occurs_at(t, seq!['?'], k));
                }
            }
        },
    }
}

/// A query pair is its key, `=` and its value when it has an `=`, the key
/// being all the text before the first `=` as written; without `=` the whole
/// pair is the key and the value is empty.
pub proof fn law_query_pair_rebuilds(p: Seq<char>)
    ensures
        index_of(p, '=') is Some ==> query_pair(p).0 + seq!['='] + query_pair(p).1 == p
            && crate::text::lacks(query_pair(p).0, '='),
        index_of(p, '=') is None ==> query_pair(p).0 == p && query_pair(p).1.len() == 0,
{
    crate::text::lemma_find_from(p, seq!['='], 0);
    if let Some(i) = index_of(p, '=') {
        assert(p.subrange(i, i + 1) == seq!['=']);
        assert(p[i] == p.subrange(i, i + 1)[0]);
        assert(p.subrange(0, i) + seq!['='] + p.subrange(i + 1, p.len() as int) =~= p);
        assert forall|k: int| 0 <= k < i implies p.subrange(0, i)[k] != '=' by {
            assert(!occurs_at(p, seq!['='], k));
            if p[k] == '=' {
                assert(p.subrange(k, k + 1) =~= seq!['=']);
            }
        }
    }
}

/// A header line is a header exactly when it has a `:`; its name is then
/// free of `:` and of ASCII capitals, so that names are compared without
/// regard to case.
pub proof fn law_header_names_are_lower_case(line: Seq<char>)
    ensures
        header_line(line) is None <==> crate::text::lacks(line, ':'),
        header_line(line) matches Some((k, v)) ==> crate::text::lacks(k, ':') && forall|j: int|
            0 <= j < k.len() ==> !('A' <= #[trigger] k[j] <= 'Z'),
{
    crate::text::lemma_find_from(line, seq![':'], 0);
    match index_of(line, ':') {
        Some(i) => {
            assert(line.subrange(i, i + 1) =~= seq![':']);
            assert(line[i] == line.subrange(i, i + 1)[0]);
            let name = line.subrange(0, i);
            assert forall|j: int| 0 <= j < name.len() implies name[j] != ':' by {
                assert(!occurs_at(line, seq![':'], j));
                if name[j] == ':' {
                    assert(line.subrange(j, j + 1) =~= seq![':']);
                }
            }
            crate::text::lemma_trim_keeps_lacks(name, ':');
            let t = trim(name);
            let k = ascii_lower(t);
            assert forall|j: int| 0 <= j < k.len() implies k[j] != ':' && !('A' <= #[trigger] k[j]
                <= 'Z') by {
                assert(k[j] == crate::text::ascii_lower_char(t[j]));
                if 'A' <= t[j] <= 'Z' {
                    assert(((t[j] as u32) + 32) as char >= 'a');
                }
            }
        },
        None => {
            assert forall|j: int| 0 <= j < line.len() implies line[j] != ':' by {
                if line[j] == ':' {
                    assert(line.subrange(j, j + 1) =~= seq![':']);
                    assert(occurs_at(line, seq![':'], j));
                }
            }
        },
    }
}

/// A query string of one pair `key=value` (no `&` in it, no `=` in the key)
/// gives that key, as written, with that one value.
pub proof fn law_query_single_pair(key: Seq<char>, value: Seq<char>)
    requires
        crate::text::lacks(key, '&'),
        crate::text::lacks(key, '='),
        crate::text::lacks(value, '&'),
    ensures
        parse_query_spec(key + seq!['='] + value) == seq![(key, seq![value])],
{
    let p = key + seq!['='] + value;
    assert(crate::text::lacks(p, '&')) by {
        assert forall|j: int| 0 <= j < p.len() implies p[j] != '&' by {
            if j < key.len() {
            } else if j > key.len() {
                assert(p[j] == value[j - key.len() - 1]);
            }
        }
    }
    crate::text::lemma_split_char_absent(p, '&');
    assert(nonempty(seq![p]) =~= seq![p]) by {
        assert(seq![p].drop_last() =~= Seq::<Seq<char>>::empty());
        assert(seq![p].last() == p);
        assert(p.len() > 0);
        assert(nonempty(Seq::<Seq<char>>::empty()) =~= Seq::<Seq<char>>::empty());
    }
    crate::text::lemma_find_from(p, seq!['='], 0);
    assert(p.subrange(key.len() as int, key.len() + 1int) =~= seq!['=']);
    assert(occurs_at(p, seq!['='], key.len() as int));
    law_query_pair_rebuilds(p);
    let k2 = query_pair(p).0;
    let v2 = query_pair(p).1;
    assert(k2 + seq!['='] + v2 == p);
    if k2.len() < key.len() {
        assert((k2 + seq!['='] + v2)[k2.len() as int] == '=');
        assert(key[k2.len() as int] == p[k2.len() as int]);
    } else if k2.len() > key.len() {
        assert(p[key.len() as int] == '=');
        assert(k2[key.len() as int] == (k2 + seq!['='] + v2)[key.len() as int]);
    }
    assert(k2 =~= key) by {
        assert forall|j: int| 0 <= j < key.len() implies k2[j] == key[j] by {
            assert(k2[j] == (k2 + seq!['='] + v2)[j]);
            assert(key[j] == p[j]);
        }
    }
    assert(v2 =~= value) by {
        assert forall|j: int| 0 <= j < value.len() implies v2[j] == value[j] by {
            assert(v2[j] == (k2 + seq!['='] + v2)[key.len() + 1 + j]);
            assert(value[j] == p[key.len() + 1 + j]);
        }
    }
    let one = seq![p];
    assert(one.drop_last() =~= Seq::<Seq<char>>::empty());
    assert(one.last() == p);
    assert(query_fold(Seq::<Seq<char>>::empty()) =~= Seq::empty());
    assert(query_pair(p) == (key, value));
    assert(query_fold(one) == query_add(Seq::empty(), key, value));
    assert(query_add(Seq::empty(), key, value) =~= seq![(key, seq![value])]);
}

/// What a request still lacks of its body is what its `content-length`
/// header asks for beyond the bytes already read: once read, the body has
/// exactly that length. Without such a header, or with one that is no
/// number, nothing is missing.
pub proof fn law_missing_body_completes(headers: Seq<(Seq<char>, String)>, body: Seq<char>)
    ensures
        assoc_get(headers, "content-length"@) matches Some(v) ==> (parse_usize(v@) matches Some(n)
            ==> (utf8_len(body) <= n ==> utf8_len(body) + missing_body_len(headers, body) == n)),
        assoc_get(headers, "content-length"@) matches Some(v) ==> (parse_usize(v@) matches Some(n)
            ==> (utf8_len(body) >= n ==> missing_body_len(headers, body) == 0)),
        assoc_get(headers, "content-length"@) matches Some(v) ==> (parse_usize(v@) is None
            ==> missing_body_len(headers, body) == 0),
        assoc_get(headers, "content-length"@) is None ==> missing_body_len(headers, body) == 0,
{
}

/// The first line of `s`, when `s` is `line`, a line break, then more text
/// and `line` holds no `\r`.
proof fn lemma_first_head_line(line: Seq<char>, more: Seq<char>)
    requires
        forall|k: int| 0 <= k < line.len() ==> line[k] != '\r',
    ensures
        head_lines(line + crlf() + more)[0] == line,
{
    let text = line + crlf() + more;
    let n = line.len() as int;
    crate::text::lemma_find_from(text, blank_line(), 0);
    match find(text, blank_line()) {
        Some(i) => {
            assert(text.subrange(i, i + 4)[0] == text[i]);
            assert(text.subrange(i, i + 4)[1] == text[i + 1]);
            if i < n {
                assert(text[i] == line[i]);
            }
            if i == n + 1 {
                assert(text[i] == '\n');
            }
            if i == n {
                assert(head_and_body(text).0 =~= line);
                assert forall|j: int| n <= j implies !occurs_at(line, crlf(), j) by {}
                assert forall|j: int| 0 <= j implies !occurs_at(line, crlf(), j) by {
                    if occurs_at(line, crlf(), j) {
                        assert(line.subrange(j, j + 2)[0] == line[j]);
                    }
                }
                crate::text::lemma_split_rec_none(line, crlf(), 0, 0);
                assert(line.subrange(0, n) =~= line);
            } else {
                let rest = text.subrange(n + 2, i);
                assert(head_and_body(text).0 =~= line + crlf() + rest);
                crate::text::lemma_split_first_piece_sep(line, crlf(), rest);
            }
        },
        None => {
            assert(head_and_body(text).0 == text);
            crate::text::lemma_split_first_piece_sep(line, crlf(), more);
        },
    }
}

/// A request whose start line is `method target version` (three words,
/// single spaces) gets that method, the path of that target and that
/// version, whatever the lines after it hold.
pub proof fn law_start_line_gives_method_path_version(
    method: Seq<char>,
    target: Seq<char>,
    version: Seq<char>,
    more: Seq<char>,
    r: HttpRequest,
)
    requires
        method.len() > 0,
        target.len() > 0,
        version.len() > 0,
        forall|k: int| 0 <= k < method.len() ==> !crate::text::is_whitespace(#[trigger] method[k]),
        forall|k: int| 0 <= k < target.len() ==> !crate::text::is_whitespace(#[trigger] target[k]),
        forall|k: int| 0 <= k < version.len() ==> !crate::text::is_whitespace(#[trigger] version[k]),
        request_from_text(r, method + seq![' '] + target + seq![' '] + version + crlf() + more),
    ensures
        start_line_error(method + seq![' '] + target + seq![' '] + version + crlf() + more) is None,
        r.method@ == method,
        r.path@ == target_path(target),
        r.version@ == version,
{
    let tail = target + seq![' '] + version;
    let line = method + seq![' '] + tail;
    assert(line =~= method + seq![' '] + target + seq![' '] + version);
    assert forall|k: int| 0 <= k < line.len() implies line[k] != '\r' by {
        if k < method.len() {
            assert(line[k] == method[k]);
        } else if method.len() < k < method.len() + 1 + target.len() {
            assert(line[k] == target[k - method.len() - 1]);
        } else if k > method.len() + 1 + target.len() {
            assert(line[k] == version[k - method.len() - 2 - target.len()]);
        }
    }
    lemma_first_head_line(line, more);
    crate::text::lemma_split_ws_first_word(method, tail);
    crate::text::lemma_split_ws_first_word(target, version);
    crate::text::lemma_split_ws_none(version, 0);
    let words = seq![method, target, version];
    assert(crate::text::split_ws_rec(line, 0, 0) =~= words);
    assert(words.drop_last() =~= seq![method, target]);
    assert(seq![method, target].drop_last() =~= seq![method]);
    assert(seq![method].drop_last() =~= Seq::<Seq<char>>::empty());
    assert(nonempty(Seq::<Seq<char>>::empty()) =~= Seq::<Seq<char>>::empty());
    assert(nonempty(seq![method]) =~= seq![method]);
    assert(nonempty(seq![method, target]) =~= seq![method, target]);
    assert(nonempty(words) =~= words);
}

} // verus!
