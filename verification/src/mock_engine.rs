//! Mock definitions: what a request must look like to match a mock, and
//! the response the mock answers with.

use vstd::prelude::*;

use crate::logger::{MatchError, MatchErrorView};
use crate::request::{strings_view, text_view, utf8_len, ResolvableRequest};
use crate::strings::{chars_of, push_str, string_of};
use crate::strmap::{assoc_get, assoc_index, lemma_assoc_index_same_keys, StrMap};
use crate::text::{decimal, push_decimal, push_without_crlf, remove_crlf};

verus! {

broadcast use vstd::string::group_string_axioms;

/// A mock file: its mocks, by name.
#[derive(Debug)]
pub struct MockDefinition {
    pub mock: StrMap<MockBlock>,
}

/// One mock: when it applies and what it answers.
#[derive(Debug)]
pub struct MockBlock {
    /// The mock's kind, as written in the file (`type`).
    pub kind: Option<String>,
    /// What a request must look like (`match`).
    pub matcher: MatchBlock,
    pub response: ResponseBlock,
}

/// The constraints a request must meet.
#[derive(Debug)]
pub struct MatchBlock {
    /// HTTP method: GET, POST, ...
    pub method: Option<String>,
    /// Path pattern, e.g. "/users/{id}".
    pub path: String,
    /// Query constraints: the request must carry this value for the key.
    pub query: StrMap<String>,
    /// Header constraints: the request's header must equal this value.
    pub header: StrMap<String>,
    /// The exact body, when given.
    pub body: Option<String>,
}

/// The response a mock answers with.
#[derive(Debug)]
pub struct ResponseBlock {
    pub status: u16,
    pub headers: StrMap<String>,
    pub body: Option<String>,
    pub options: ResponseOptions,
}

/// How the response is delivered.
#[derive(Debug)]
pub struct ResponseOptions {
    /// Time to wait before answering, in humantime notation ("150ms", "2s").
    pub delay: Option<String>,
    /// Whether to close the connection after answering.
    pub connection_close: Option<bool>,
}

/// The status a response has when the mock file gives none.
pub fn default_status() -> (s: u16)
    ensures
        s == 200,
{
    200
}

/// The character sequence of an optional string.
pub open spec fn opt_view(o: Option<String>) -> Option<Seq<char>> {
    match o {
        Some(s) => Some(s@),
        None => None,
    }
}

/// The first query constraint, from index `i` on, that `actual` fails.
pub open spec fn query_failure(
    expected: Seq<(Seq<char>, String)>,
    actual: Seq<(Seq<char>, Vec<String>)>,
    i: int,
) -> Option<MatchErrorView>
    decreases expected.len() - i,
{
    if i < 0 || i >= expected.len() {
        None
    } else {
        let key = expected[i].0;
        let want = expected[i].1@;
        match assoc_get(actual, key) {
            None => Some(MatchErrorView::QueryMismatch { key, expected: want, found: None }),
            Some(values) => if !strings_view(values@).contains(want) {
                Some(
                    MatchErrorView::QueryMismatch {
                        key,
                        expected: want,
                        found: Some(strings_view(values@)),
                    },
                )
            } else {
                query_failure(expected, actual, i + 1)
            },
        }
    }
}

/// The first header constraint, from index `i` on, that `actual` fails.
pub open spec fn header_failure(
    expected: Seq<(Seq<char>, String)>,
    actual: Seq<(Seq<char>, String)>,
    i: int,
) -> Option<MatchErrorView>
    decreases expected.len() - i,
{
    if i < 0 || i >= expected.len() {
        None
    } else {
        let key = expected[i].0;
        let want = expected[i].1@;
        let found = opt_view(assoc_get(actual, key));
        if found != Some(want) {
            Some(MatchErrorView::HeaderMismatch { key, expected: want, found })
        } else {
            header_failure(expected, actual, i + 1)
        }
    }
}

/// The action, or the empty sequence when there is none.
pub open spec fn action_or_empty(action: Option<Seq<char>>) -> Seq<char> {
    match action {
        Some(a) => a,
        None => Seq::empty(),
    }
}

/// `m` asks for a method other than the request's action.
pub open spec fn method_fails(m: MatchBlock, action: Option<Seq<char>>) -> bool {
    m.method is Some && m.method->0@ != action_or_empty(action)
}

/// The first constraint of `m` that a request fails, checking the method,
/// then the query, then the headers, then the body; `None` when it meets
/// them all. A request without an action is taken to have the empty one.
pub open spec fn match_failure(
    m: MatchBlock,
    action: Option<Seq<char>>,
    query: Seq<(Seq<char>, Vec<String>)>,
    headers: Seq<(Seq<char>, String)>,
    body: Seq<char>,
) -> Option<MatchErrorView> {
    if method_fails(m, action) {
        Some(MatchErrorView::MethodMismatch { expected: m.method->0@, found: action_or_empty(action) })
    } else if query_failure(m.query@, query, 0) is Some {
        query_failure(m.query@, query, 0)
    } else if header_failure(m.header@, headers, 0) is Some {
        header_failure(m.header@, headers, 0)
    } else if m.body is Some && m.body->0@ != body {
        Some(MatchErrorView::BodyMismatch { expected: m.body->0@, found: body })
    } else {
        None
    }
}

/// `match_failure` for a request.
pub open spec fn request_failure<R: ResolvableRequest>(m: MatchBlock, req: &R) -> Option<
    MatchErrorView,
> {
    match_failure(m, req.action_spec(), req.query_spec()@, req.headers_spec()@, req.body_spec())
}

/// A copy of a string.
pub fn copy_string(s: &String) -> (r: String)
    ensures
        r@ == s@,
{
    s.clone()
}

/// A copy of a list of strings.
pub fn copy_strings(v: &Vec<String>) -> (r: Vec<String>)
    ensures
        strings_view(r@) == strings_view(v@),
{
    let mut r: Vec<String> = Vec::new();
    let mut i: usize = 0;
    while i < v.len()
        invariant
            i <= v.len(),
            strings_view(r@) == strings_view(v@).subrange(0, i as int),
        decreases v.len() - i,
    {
        let c = v[i].clone();
        assert(c@ == v@[i as int]@);
        let ghost before = r@;
        r.push(c);
        assert(r@ == before.push(c));
        assert(strings_view(r@) =~= strings_view(before).push(c@));
        i += 1;
        assert(strings_view(r@) =~= strings_view(v@).subrange(0, i as int));
    }
    assert(strings_view(v@).subrange(0, v@.len() as int) =~= strings_view(v@));
    r
}

/// Whether `values` holds `want`.
fn holds_value(values: &Vec<String>, want: &String) -> (b: bool)
    ensures
        b == strings_view(values@).contains(want@),
{
    let mut i: usize = 0;
    while i < values.len()
        invariant
            i <= values.len(),
            forall|j: int| 0 <= j < i ==> values@[j]@ != want@,
        decreases values.len() - i,
    {
        if values[i] == *want {
            assert(strings_view(values@)[i as int] == want@);
            return true;
        }
        i += 1;
    }
    assert forall|j: int| 0 <= j < strings_view(values@).len() implies strings_view(values@)[j]
        != want@ by {
        assert(strings_view(values@)[j] == values@[j]@);
    }
    false
}

impl Default for MatchBlock {
    /// No method, body, query or header constraint, and an empty path.
    fn default() -> (m: MatchBlock)
        ensures
            m.method is None,
            m.path@ == Seq::<char>::empty(),
            m.query@ == Seq::<(Seq<char>, String)>::empty(),
            m.header@ == Seq::<(Seq<char>, String)>::empty(),
            m.body is None,
    {
        MatchBlock {
            method: None,
            path: String::new(),
            query: StrMap::new(),
            header: StrMap::new(),
            body: None,
        }
    }
}

impl MatchBlock {
    /// Checks `req` against the constraints: the method, then each query
    /// constraint in order, then each header constraint in order, then the
    /// body. The first one that fails is reported.
    pub fn matches<R: ResolvableRequest>(&self, req: &R) -> (r: Result<(), MatchError>)
        ensures
            r is Ok <==> request_failure(*self, req) is None,
            r matches Err(e) ==> request_failure(*self, req) == Some(e@),
    {
        // 1) method
        if let Some(expected) = &self.method {
            let found = match req.action() {
                Some(a) => a,
                None => "",
            };
            proof {
                reveal_strlit("");
            }
            let found_s = found.to_string();
            assert(found@ == action_or_empty(req.action_spec()));
            assert(found_s@ == found@);
            if !(*expected == found_s) {
                return Err(
                    MatchError::MethodMismatch { expected: copy_string(expected), found: found_s },
                );
            }
        }
        // 2) query

        let req_query = req.query();
        let mut i: usize = 0;
        while i < self.query.len()
            invariant
                i <= self.query@.len(),
                *req_query == req.query_spec(),
                !method_fails(*self, req.action_spec()),
                query_failure(self.query@, req_query@, 0) == query_failure(
                    self.query@,
                    req_query@,
                    i as int,
                ),
            decreases self.query@.len() - i,
        {
            let key = self.query.key_at(i);
            let expected = self.query.value_at(i);
            match req_query.get(key.as_str()) {
                None => {
                    return Err(
                        MatchError::QueryMismatch {
                            key: copy_string(key),
                            expected: copy_string(expected),
                            found: None,
                        },
                    );
                },
                Some(values) => {
                    if !holds_value(values, expected) {
                        return Err(
                            MatchError::QueryMismatch {
                                key: copy_string(key),
                                expected: copy_string(expected),
                                found: Some(copy_strings(values)),
                            },
                        );
                    }
                },
            }
            i += 1;
        }
        // 3) headers
        let req_headers = req.headers();
        let mut j: usize = 0;
        while j < self.header.len()
            invariant
                j <= self.header@.len(),
                *req_headers == req.headers_spec(),
                !method_fails(*self, req.action_spec()),
                query_failure(self.query@, req.query_spec()@, 0) is None,
                header_failure(self.header@, req_headers@, 0) == header_failure(
                    self.header@,
                    req_headers@,
                    j as int,
                ),
            decreases self.header@.len() - j,
        {
            let key = self.header.key_at(j);
            let expected = self.header.value_at(j);
            let found = req_headers.get(key.as_str());
            let same = match found {
                Some(v) => *v == *expected,
                None => false,
            };
            if !same {
                let found_copy = match found {
                    Some(v) => Some(copy_string(v)),
                    None => None,
                };
                return Err(
                    MatchError::HeaderMismatch {
                        key: copy_string(key),
                        expected: copy_string(expected),
                        found: found_copy,
                    },
                );
            }
            j += 1;
        }
        // 4) body
        if let Some(expected) = &self.body {
            let found = req.body().to_string();
            if !(*expected == found) {
                return Err(MatchError::BodyMismatch { expected: copy_string(expected), found });
            }
        }
        Ok(())
    }
}

/// The reason phrase of a status code.
pub open spec fn status_reason(status: u16) -> Seq<char> {
    if status == 200 {
        "OK"@
    } else if status == 201 {
        "Created"@
    } else if status == 400 {
        "Bad Request"@
    } else if status == 404 {
        "Not found"@
    } else if status == 500 {
        "Internal Server Error"@
    } else {
        "Unknown"@
    }
}

/// The value of the `Content-Length` header a response gets when it names none:
/// the UTF-8 length of its body, or 0 without a body.
pub open spec fn default_content_length(body: Option<String>) -> Seq<char> {
    match body {
        Some(b) => decimal(utf8_len(b@) as nat),
        None => "0"@,
    }
}

/// The headers a response is sent with: its own, then `Content-Length`
/// when it has no header of exactly that name.
pub open spec fn response_headers(r: ResponseBlock) -> Seq<(Seq<char>, Seq<char>)> {
    let own = text_view(r.headers@);
    if assoc_index(own, "Content-Length"@) >= 0 {
        own
    } else {
        own.push(("Content-Length"@, default_content_length(r.body)))
    }
}

/// Header lines `name: value\r\n`, with `\r` and `\n` taken out of values.
pub open spec fn header_lines(hs: Seq<(Seq<char>, Seq<char>)>) -> Seq<char>
    decreases hs.len(),
{
    if hs.len() == 0 {
        Seq::empty()
    } else {
        header_lines(hs.drop_last()) + hs.last().0 + ": "@ + remove_crlf(hs.last().1) + "\r\n"@
    }
}

/// The text of the response: status line, header lines, a blank line, then
/// the body.
pub open spec fn response_text(r: ResponseBlock) -> Seq<char> {
    "HTTP/1.1 "@ + decimal(r.status as nat) + " "@ + status_reason(r.status) + "\r\n"@ + header_lines(
        response_headers(r),
    ) + "\r\n"@ + match r.body {
        Some(b) => b@,
        None => Seq::empty(),
    }
}

impl ResponseBlock {
    /// The reason phrase of the status.
    fn reason(&self) -> (s: &'static str)
        ensures
            s@ == status_reason(self.status),
    {
        match self.status {
            200 => "OK",
            201 => "Created",
            400 => "Bad Request",
            404 => "Not found",
            500 => "Internal Server Error",
            _ => "Unknown",
        }
    }

    /// The HTTP response text for this block.
    pub fn build(&self) -> (s: String)
        ensures
            s@ == response_text(*self),
    {
        let mut out: Vec<char> = Vec::new();
        push_str(&mut out, "HTTP/1.1 ");
        push_decimal(&mut out, self.status as u64);
        push_str(&mut out, " ");
        push_str(&mut out, self.reason());
        push_str(&mut out, "\r\n");
        let ghost prefix = out@;
        let ghost own = text_view(self.headers@);
        let mut i: usize = 0;
        while i < self.headers.len()
            invariant
                i <= self.headers@.len(),
                own == text_view(self.headers@),
                out@ == prefix + header_lines(own.subrange(0, i as int)),
            decreases self.headers@.len() - i,
        {
            let k = self.headers.key_at(i);
            let v = self.headers.value_at(i);
            push_str(&mut out, k.as_str());
            push_str(&mut out, ": ");
            let vc = chars_of(v.as_str());
            push_without_crlf(&mut out, vc.as_slice());
            push_str(&mut out, "\r\n");
            i += 1;
            assert(own.subrange(0, i as int).drop_last() =~= own.subrange(0, i - 1));
            assert(out@ =~= prefix + header_lines(own.subrange(0, i as int)));
        }
        assert(own.subrange(0, own.len() as int) =~= own);
        proof {
            lemma_assoc_index_same_keys(self.headers@, own, "Content-Length"@);
        }
        if !self.headers.contains_key("Content-Length") {
            let ghost before = out@;
            push_str(&mut out, "Content-Length");
            push_str(&mut out, ": ");
            let mut len_chars: Vec<char> = Vec::new();
            match &self.body {
                Some(b) => {
                    let n = b.as_str().len();
                    push_decimal(&mut len_chars, n as u64);
                },
                None => {
                    push_str(&mut len_chars, "0");
                },
            }
            assert(len_chars@ == default_content_length(self.body));
            push_without_crlf(&mut out, len_chars.as_slice());
            push_str(&mut out, "\r\n");
            let ghost entry = ("Content-Length"@, default_content_length(self.body));
            assert(assoc_index(own, "Content-Length"@) < 0);
            assert(response_headers(*self) == own.push(entry));
            assert(own.push(entry).drop_last() =~= own);
            assert(header_lines(response_headers(*self)) =~= header_lines(own) + "Content-Length"@
                + ": "@ + remove_crlf(len_chars@) + "\r\n"@);
            assert(out@ =~= prefix + header_lines(response_headers(*self)));
        }
        push_str(&mut out, "\r\n");
        match &self.body {
            Some(b) => push_str(&mut out, b.as_str()),
            None => {},
        }
        assert(out@ =~= response_text(*self));
        string_of(out.as_slice())
    }
}

/// The query constraints from index `i` on all hold.
pub open spec fn query_holds(
    expected: Seq<(Seq<char>, String)>,
    actual: Seq<(Seq<char>, Vec<String>)>,
    i: int,
) -> bool {
    forall|j: int|
        i <= j < expected.len() ==> (match assoc_get(actual, (#[trigger] expected[j]).0) {
            Some(values) => strings_view(values@).contains(expected[j].1@),
            None => false,
        })
}

/// The header constraints from index `i` on all hold.
pub open spec fn headers_hold(
    expected: Seq<(Seq<char>, String)>,
    actual: Seq<(Seq<char>, String)>,
    i: int,
) -> bool {
    forall|j: int|
        i <= j < expected.len() ==> opt_view(assoc_get(actual, (#[trigger] expected[j]).0)) == Some(
            expected[j].1@,
        )
}

proof fn lemma_query_failure(
    expected: Seq<(Seq<char>, String)>,
    actual: Seq<(Seq<char>, Vec<String>)>,
    i: int,
)
    requires
        0 <= i,
    ensures
        query_failure(expected, actual, i) is None <==> query_holds(expected, actual, i),
    decreases expected.len() - i,
{
    if i < expected.len() {
        lemma_query_failure(expected, actual, i + 1);
        if query_holds(expected, actual, i) {
            assert(query_holds(expected, actual, i + 1));
            let _ = expected[i];
        }
        if query_failure(expected, actual, i) is None {
            assert forall|j: int| i <= j < expected.len() implies (match assoc_get(
                actual,
                (#[trigger] expected[j]).0,
            ) {
                Some(values) => strings_view(values@).contains(expected[j].1@),
                None => false,
            }) by {
                if j > i {
                    assert(query_holds(expected, actual, i + 1));
                }
            }
        }
    }
}

proof fn lemma_header_failure(
    expected: Seq<(Seq<char>, String)>,
    actual: Seq<(Seq<char>, String)>,
    i: int,
)
    requires
        0 <= i,
    ensures
        header_failure(expected, actual, i) is None <==> headers_hold(expected, actual, i),
    decreases expected.len() - i,
{
    if i < expected.len() {
        lemma_header_failure(expected, actual, i + 1);
        if headers_hold(expected, actual, i) {
            assert(headers_hold(expected, actual, i + 1));
            let _ = expected[i];
        }
        if header_failure(expected, actual, i) is None {
            assert forall|j: int| i <= j < expected.len() implies opt_view(
                assoc_get(actual, (#[trigger] expected[j]).0),
            ) == Some(expected[j].1@) by {
                if j > i {
                    assert(headers_hold(expected, actual, i + 1));
                }
            }
        }
    }
}

/// A request matches exactly when it meets every constraint: the method
/// (when one is asked), each query constraint (the request lists the value
/// under the key), each header constraint (the request's header has the
/// value), and the body (when one is asked).
pub proof fn law_match_iff_constraints_hold(
    m: MatchBlock,
    action: Option<Seq<char>>,
    query: Seq<(Seq<char>, Vec<String>)>,
    headers: Seq<(Seq<char>, String)>,
    body: Seq<char>,
)
    ensures
        match_failure(m, action, query, headers, body) is None <==> {
            &&& m.method matches Some(meth) ==> meth@ == action_or_empty(action)
            &&& query_holds(m.query@, query, 0)
            &&& headers_hold(m.header@, headers, 0)
            &&& m.body matches Some(b) ==> b@ == body
        },
{
    lemma_query_failure(m.query@, query, 0);
    lemma_header_failure(m.header@, headers, 0);
}

/// A block without constraints matches every request.
pub proof fn law_unconstrained_matches_all(
    m: MatchBlock,
    action: Option<Seq<char>>,
    query: Seq<(Seq<char>, Vec<String>)>,
    headers: Seq<(Seq<char>, String)>,
    body: Seq<char>,
)
    requires
        m.method is None,
        m.query@.len() == 0,
        m.header@.len() == 0,
        m.body is None,
    ensures
        match_failure(m, action, query, headers, body) is None,
{
    law_match_iff_constraints_hold(m, action, query, headers, body);
}

/// Every response carries a `Content-Length` header.
pub proof fn law_response_has_content_length(r: ResponseBlock)
    ensures
        assoc_index(response_headers(r), "Content-Length"@) >= 0,
{
    let own = text_view(r.headers@);
    if assoc_index(own, "Content-Length"@) < 0 {
        let entry = ("Content-Length"@, default_content_length(r.body));
        assert(own.push(entry).last().0 == "Content-Length"@);
    }
}

/// Every response starts with the status line of its code: each known code
/// with its own reason phrase (`200 OK`, `201 Created`, `400 Bad Request`,
/// `404 Not found`, `500 Internal Server Error`).
pub proof fn law_status_lines(r: ResponseBlock)
    ensures
        r.status == 200 ==> "HTTP/1.1 200 OK\r\n"@.is_prefix_of(response_text(r)),
        r.status == 201 ==> "HTTP/1.1 201 Created\r\n"@.is_prefix_of(response_text(r)),
        r.status == 400 ==> "HTTP/1.1 400 Bad Request\r\n"@.is_prefix_of(response_text(r)),
        r.status == 404 ==> "HTTP/1.1 404 Not found\r\n"@.is_prefix_of(response_text(r)),
        r.status == 500 ==> "HTTP/1.1 500 Internal Server Error\r\n"@.is_prefix_of(
            response_text(r),
        ),
{
    reveal_strlit("HTTP/1.1 ");
    reveal_strlit(" ");
    reveal_strlit("\r\n");
    reveal_strlit("OK");
    reveal_strlit("Created");
    reveal_strlit("Bad Request");
    reveal_strlit("Not found");
    reveal_strlit("Internal Server Error");
    reveal_strlit("HTTP/1.1 200 OK\r\n");
    reveal_strlit("HTTP/1.1 201 Created\r\n");
    reveal_strlit("HTTP/1.1 400 Bad Request\r\n");
    reveal_strlit("HTTP/1.1 404 Not found\r\n");
    reveal_strlit("HTTP/1.1 500 Internal Server Error\r\n");
    reveal_with_fuel(decimal, 3);
    let rest = header_lines(response_headers(r)) + "\r\n"@ + match r.body {
        Some(b) => b@,
        None => Seq::empty(),
    };
    let line = "HTTP/1.1 "@ + decimal(r.status as nat) + " "@ + status_reason(r.status) + "\r\n"@;
    assert(response_text(r) =~= line + rest);
    if r.status == 200 {
        assert(line =~= "HTTP/1.1 200 OK\r\n"@);
    }
    if r.status == 201 {
        assert(line =~= "HTTP/1.1 201 Created\r\n"@);
    }
    if r.status == 400 {
        assert(line =~= "HTTP/1.1 400 Bad Request\r\n"@);
    }
    if r.status == 404 {
        assert(line =~= "HTTP/1.1 404 Not found\r\n"@);
    }
    if r.status == 500 {
        assert(line =~= "HTTP/1.1 500 Internal Server Error\r\n"@);
    }
}

/// A response that names no `Content-Length` is sent with its own headers
/// followed by one giving the UTF-8 length of its body (0 without a body);
/// one that names it is sent with its own headers alone.
pub proof fn law_content_length_value(r: ResponseBlock)
    ensures
        assoc_index(text_view(r.headers@), "Content-Length"@) < 0 ==> {
            &&& response_headers(r).subrange(0, r.headers@.len() as int) == text_view(r.headers@)
            &&& assoc_get(response_headers(r), "Content-Length"@) == Some(
                decimal(
                    match r.body {
                        Some(b) => utf8_len(b@) as nat,
                        None => 0nat,
                    },
                ),
            )
        },
        assoc_index(text_view(r.headers@), "Content-Length"@) >= 0 ==> response_headers(r)
            == text_view(r.headers@),
{
    reveal_strlit("0");
    let own = text_view(r.headers@);
    if assoc_index(own, "Content-Length"@) < 0 {
        let full = response_headers(r);
        assert(full.subrange(0, own.len() as int) =~= own);
        assert(full.last().0 == "Content-Length"@);
        assert(decimal(0) =~= "0"@);
    }
}

/// The report names the first kind of constraint the request fails, in the
/// order method, query, headers, body: a wrong method is reported whatever
/// else fails, a failed query constraint when the method is right, and so on.
pub proof fn law_first_failed_constraint_is_reported(
    m: MatchBlock,
    action: Option<Seq<char>>,
    query: Seq<(Seq<char>, Vec<String>)>,
    headers: Seq<(Seq<char>, String)>,
    body: Seq<char>,
)
    ensures
        m.method matches Some(x) ==> (x@ != action_or_empty(action) ==> match_failure(
            m,
            action,
            query,
            headers,
            body,
        ) == Some(MatchErrorView::MethodMismatch { expected: x@, found: action_or_empty(action) })),
        (m.method matches Some(x) ==> x@ == action_or_empty(action)) && !query_holds(m.query@, query, 0)
            ==> match_failure(m, action, query, headers, body) matches Some(
            MatchErrorView::QueryMismatch { .. },
        ),
        (m.method matches Some(x) ==> x@ == action_or_empty(action)) && query_holds(m.query@, query, 0)
            && !headers_hold(m.header@, headers, 0) ==> match_failure(m, action, query, headers, body)
            matches Some(MatchErrorView::HeaderMismatch { .. }),
        (m.method matches Some(x) ==> x@ == action_or_empty(action)) && query_holds(m.query@, query, 0)
            && headers_hold(m.header@, headers, 0) ==> (m.body matches Some(b) ==> (b@ != body
            ==> match_failure(m, action, query, headers, body) == Some(
            MatchErrorView::BodyMismatch { expected: b@, found: body },
        ))),
{
    lemma_query_failure(m.query@, query, 0);
    lemma_header_failure(m.header@, headers, 0);
    lemma_query_failure_kind(m.query@, query, 0);
    lemma_header_failure_kind(m.header@, headers, 0);
}

proof fn lemma_query_failure_kind(
    expected: Seq<(Seq<char>, String)>,
    actual: Seq<(Seq<char>, Vec<String>)>,
    i: int,
)
    ensures
        query_failure(expected, actual, i) matches Some(e) ==> e is QueryMismatch,
    decreases expected.len() - i,
{
    if 0 <= i < expected.len() {
        lemma_query_failure_kind(expected, actual, i + 1);
    }
}

proof fn lemma_header_failure_kind(
    expected: Seq<(Seq<char>, String)>,
    actual: Seq<(Seq<char>, String)>,
    i: int,
)
    ensures
        header_failure(expected, actual, i) matches Some(e) ==> e is HeaderMismatch,
    decreases expected.len() - i,
{
    if 0 <= i < expected.len() {
        lemma_header_failure_kind(expected, actual, i + 1);
    }
}

} // verus!
