//! Protocol handlers: route templates with placeholders, and what the HTTP
//! handler answers for each resolution of a request.

use vstd::prelude::*;

use crate::logger::{MatchError, MatchErrorView};
use crate::matcher::{normalized, wildcard_hits, HttpResolver, ResolveError, Resolution, Resolver};
use crate::mock_engine::{copy_string, request_failure, response_text, MockBlock};
use crate::request::{strings_view, text_view, utf8_len, HttpRequest};
use crate::strings::{chars_of, push_str, string_of};
use crate::strmap::{assoc_index, assoc_insert, StrMap};
use crate::text::{
    char_vecs, decimal, join, push_decimal, slice_chars, split, split_exec,
};
use crate::delay::{delay_bounded, delay_in_range};

verus! {

broadcast use vstd::string::group_string_axioms;

/// The separator of route segments.
pub open spec fn colons() -> Seq<char> {
    seq![':', ':']
}

/// A mock-key segment of the form `{name}`.
pub open spec fn is_placeholder(m: Seq<char>) -> bool {
    m.len() >= 1 && m[0] == '{' && m[m.len() - 1] == '}'
}

/// The name inside a placeholder segment.
pub open spec fn placeholder_name(m: Seq<char>) -> Seq<char> {
    m.subrange(1, m.len() - 1)
}

/// Route segments `rs` fit key segments `ms`: as many of them, and equal
/// wherever the key has no placeholder.
pub open spec fn segments_fit(rs: Seq<Seq<char>>, ms: Seq<Seq<char>>) -> bool {
    &&& rs.len() == ms.len()
    &&& forall|i: int| 0 <= i < ms.len() ==> is_placeholder(#[trigger] ms[i]) || ms[i] == rs[i]
}

/// The parameters bound by the first `n` segments: each placeholder's name
/// mapped to the route segment in its place (a later one wins on a repeated name).
pub open spec fn bound_params(rs: Seq<Seq<char>>, ms: Seq<Seq<char>>, n: int) -> Seq<
    (Seq<char>, Seq<char>),
>
    decreases n,
{
    if n <= 0 {
        Seq::empty()
    } else if is_placeholder(ms[n - 1]) {
        assoc_insert(bound_params(rs, ms, n - 1), placeholder_name(ms[n - 1]), rs[n - 1])
    } else {
        bound_params(rs, ms, n - 1)
    }
}

/// The parameters with which the route `request` matches the mock key
/// `mock_key` (both `::`-separated), or `None` when it does not match.
pub open spec fn wildcard_params(request: Seq<char>, mock_key: Seq<char>) -> Option<
    Seq<(Seq<char>, Seq<char>)>,
> {
    let rs = split(request, colons());
    let ms = split(mock_key, colons());
    if segments_fit(rs, ms) {
        Some(bound_params(rs, ms, ms.len() as int))
    } else {
        None
    }
}

/// Matches a normalized route against a mock key whose segments may be
/// placeholders `{name}`; gives the values bound to the placeholders.
pub fn match_wildcard(request: &str, mock_key: &str) -> (r: Option<StrMap<String>>)
    ensures
        r matches Some(m) ==> wildcard_params(request@, mock_key@) == Some(text_view(m@)),
        r is None ==> wildcard_params(request@, mock_key@) is None,
{
    let sep = vec![':', ':'];
    assert(sep@ =~= colons());
    let rc = chars_of(request);
    let mc = chars_of(mock_key);
    let req_segments = split_exec(rc.as_slice(), sep.as_slice());
    let mock_segments = split_exec(mc.as_slice(), sep.as_slice());
    let ghost rs = char_vecs(req_segments@);
    let ghost ms = char_vecs(mock_segments@);
    if req_segments.len() != mock_segments.len() {
        return None;
    }
    let mut params: StrMap<String> = StrMap::new();
    let mut i: usize = 0;
    while i < mock_segments.len()
        invariant
            i <= ms.len(),
            rs.len() == ms.len(),
            rs == char_vecs(req_segments@),
            ms == char_vecs(mock_segments@),
            rs == split(request@, colons()),
            ms == split(mock_key@, colons()),
            forall|j: int| 0 <= j < i ==> is_placeholder(#[trigger] ms[j]) || ms[j] == rs[j],
            text_view(params@) == bound_params(rs, ms, i as int),
        decreases ms.len() - i,
    {
        let m = mock_segments[i].as_slice();
        let r = req_segments[i].as_slice();
        assert(m@ == ms[i as int] && r@ == rs[i as int]);
        let n = m.len();
        if n >= 1 && m[0] == '{' && m[n - 1] == '}' {
            let name = string_of(slice_chars(m, 1, n - 1).as_slice());
            let value = string_of(r);
            let ghost before = params@;
            params.insert(name, value);
            proof {
                crate::request::lemma_text_view_insert(before, name@, value);
            }
        } else {
            let mut same = r.len() == n;
            let mut k: usize = 0;
            while same && k < n
                invariant
                    k <= n,
                    n == m@.len(),
                    same ==> r@.len() == n,
                    same ==> forall|j: int| 0 <= j < k ==> m@[j] == r@[j],
                    !same ==> m@ != r@,
                decreases n - k,
            {
                if m[k] != r[k] {
                    same = false;
                }
                k += 1;
            }
            if !same {
                assert(!is_placeholder(ms[i as int]));
                assert(ms[i as int] != rs[i as int]);
                assert(!segments_fit(rs, ms));
                return None;
            }
            assert(m@ =~= r@);
        }
        i += 1;
    }
    Some(params)
}

/// The handler for HTTP connections.
pub struct HttpHandler;

/// The handler for WebSocket connections.
pub struct WebSocketHandler;

/// The handler for connections in other protocols.
pub struct CustomHandler;

/// What to send back on a connection.
#[derive(Debug)]
pub struct Reply {
    /// The response text.
    pub bytes: String,
    /// How long to wait before sending it.
    pub delay: Option<Delay>,
    /// Whether to shut the connection down after sending it.
    pub shutdown: bool,
}

/// How a request was answered.
#[derive(Debug)]
pub enum Served {
    /// By a mock's response.
    Mock,
    /// With a mismatch report.
    Mismatch(MatchError),
    /// With a 404, as no mock applies.
    NoMock,
}

/// Why a request could not be answered.
#[derive(Debug)]
pub enum HandleError {
    /// The route is ambiguous.
    Resolve(ResolveError),
    /// The mock's delay is not a duration humantime reads; `error` is what
    /// humantime reports.
    InvalidDelay { text: String, error: humantime::DurationError },
    /// The mock's delay is not `delay_bounded`: read by humantime, its
    /// seconds could reach `u64::MAX`.
    DelayTooLong(String),
}

/// The duration humantime reads in `text`.
pub uninterp spec fn humantime_duration(text: Seq<char>) -> Option<Delay>;

/// A length of time: whole seconds and the nanoseconds beyond them.
#[derive(Debug, Clone, Copy, PartialEq, Eq, Structural)]
pub struct Delay {
    pub secs: u64,
    pub nanos: u32,
}

#[verifier::external_type_specification]
#[verifier::external_body]
pub struct ExDurationError(humantime::DurationError);

/// Calls `humantime::parse_duration`. Its result is named
/// `humantime_duration`; as its source shows, "0" is the zero duration, and a
/// `Duration` has fewer than a billion nanoseconds beyond its seconds.
///
/// humantime's arithmetic is checked except in `add_current`, whose
/// `Duration::new(sec, nsec)` panics when `sec` is `u64::MAX` and `nsec` a
/// whole second. Hence the requirement `delay_bounded`: humantime reads a
/// span as digits (whitespace allowed) before a `.` or its unit letters,
/// possibly a fraction, then the letters, and adds its integer part `n` times
/// the unit and then its fraction. The integer part adds at most `n * unit`
/// seconds plus the nanoseconds it carries (at most `n + 1` seconds for
/// `ns`, `us`, `ms`), so at most `(n + 1) * unit`, counting `ns` to `s` as a
/// unit of one second; the fraction adds less than one unit, or for `s` and
/// `min` fewer than 60 seconds of nanoseconds plus a carried second. A span
/// whose unit humantime does not know stops the reading with an error before
/// it adds anything. So the seconds passed to `Duration::new` never exceed
/// `delay_seconds_bound`, which `delay_bounded` keeps below `u64::MAX`.
#[verifier::external_body]
fn parse_duration(text: &str) -> (r: Result<Delay, humantime::DurationError>)
    requires
        delay_bounded(text@),
    ensures
        r is Ok <==> humantime_duration(text@) is Some,
        r matches Ok(d) ==> humantime_duration(text@) == Some(d) && d.nanos < 1_000_000_000,
        r matches Err(_) ==> text@ != "0"@,
{
    match humantime::parse_duration(text) {
        Ok(d) => Ok(Delay { secs: d.as_secs(), nanos: d.subsec_nanos() }),
        Err(e) => Err(e),
    }
}

/// What `{:?}` writes for a string: its Debug rendering, quotes included.
pub uninterp spec fn str_debug(s: Seq<char>) -> Seq<char>;

/// Formats `s` with `{:?}` (std's `Debug` for `str`), whose result is named
/// `str_debug`.
#[verifier::external_body]
fn debug_str(s: &str) -> (r: String)
    ensures
        r@ == str_debug(s@),
{
    format!("{:?}", s)
}

/// What `{:?}` writes for an optional string.
pub open spec fn debug_opt_string(o: Option<Seq<char>>) -> Seq<char> {
    match o {
        Some(s) => "Some("@ + str_debug(s) + ")"@,
        None => "None"@,
    }
}

/// The Debug renderings of `v`, joined with `, `.
pub open spec fn debug_items(v: Seq<Seq<char>>) -> Seq<char> {
    join(v.map_values(|s: Seq<char>| str_debug(s)), ", "@)
}

/// What `{:?}` writes for an optional list of strings.
pub open spec fn debug_opt_list(o: Option<Seq<Seq<char>>>) -> Seq<char> {
    match o {
        Some(v) => "Some(["@ + debug_items(v) + "])"@,
        None => "None"@,
    }
}

/// The message that reports a mismatch.
pub open spec fn mismatch_message(e: MatchErrorView) -> Seq<char> {
    match e {
        MatchErrorView::MethodMismatch { expected, found } => "Method mismatch: expected '"@
            + expected + "', got '"@ + found + "'"@,
        MatchErrorView::QueryMismatch { key, expected, found } => "Query mismatch on '"@ + key
            + "': expected '"@ + expected + "', got '"@ + debug_opt_list(found) + "'"@,
        MatchErrorView::HeaderMismatch { key, expected, found } => "Header mismatch on '"@ + key
            + "': expected '"@ + expected + "', got '"@ + debug_opt_string(found) + "'"@,
        MatchErrorView::BodyMismatch { expected, found } => "Body mismatch: expected '"@ + expected
            + "', got '"@ + found + "'"@,
    }
}

/// The 422 response that carries a mismatch message.
pub open spec fn mismatch_response(msg: Seq<char>) -> Seq<char> {
    "HTTP/1.1 422 Unprocessable Entity\r\nContent-Type: text/plain\r\nContent-Length: "@ + decimal(
        utf8_len(msg) as nat,
    ) + "\r\n\r\n"@ + msg
}

/// The 404 response sent when no mock applies.
pub open spec fn not_found_response() -> Seq<char> {
    "HTTP/1.1 404 Not Found\r\n"@ + "Content-Length: "@ + decimal(utf8_len("404 Not Found"@) as nat)
        + "\r\nContent-Type: text/plain\r\n"@ + "\r\n"@ + "404 Not Found"@
}

/// The reply for `mock`: its response, its delay, and whether to close.
pub open spec fn mock_reply(r: Reply, mock: MockBlock) -> bool {
    &&& r.bytes@ == response_text(mock.response)
    &&& r.shutdown == (mock.response.options.connection_close == Some(true))
    &&& match mock.response.options.delay {
        Some(d) => r.delay == humantime_duration(d@),
        None => r.delay is None,
    }
}

/// The mock's delay, if it has one, is short enough to read and a duration
/// humantime reads.
pub open spec fn delay_readable(mock: MockBlock) -> bool {
    mock.response.options.delay matches Some(d) ==> delay_bounded(d@)
        && humantime_duration(d@) is Some
}

/// `r` is the error for the mock's unreadable delay: too many digits, or
/// not a duration humantime reads.
pub open spec fn delay_error(r: Result<(Reply, Served), HandleError>, mock: MockBlock) -> bool {
    match mock.response.options.delay {
        Some(d) => if !delay_bounded(d@) {
            r matches Err(HandleError::DelayTooLong(t)) && t@ == d@
        } else {
            r matches Err(HandleError::InvalidDelay { text: t, .. }) && t@ == d@
        },
        None => false,
    }
}

/// `r` is how `mock` answers `request`: with its reply when the request
/// meets its constraints (an error when its delay is unreadable), with a
/// 422 reporting the first failed constraint otherwise.
pub open spec fn served_by(r: Result<(Reply, Served), HandleError>, mock: MockBlock, request: &HttpRequest) -> bool {
    match request_failure(mock.matcher, request) {
        None => if delay_readable(mock) {
            r matches Ok((reply, Served::Mock)) && mock_reply(reply, mock)
        } else {
            delay_error(r, mock)
        },
        Some(e) => r matches Ok((reply, Served::Mismatch(d))) && d@ == e && reply.bytes@
            == mismatch_response(mismatch_message(e)) && reply.delay is None && !reply.shutdown,
    }
}

/// Appends the Debug rendering of a list of strings: `["a", "b"]`.
pub(crate) fn push_debug_list(out: &mut Vec<char>, v: &Vec<String>)
    ensures
        final(out)@ == old(out)@ + "["@ + debug_items(strings_view(v@)) + "]"@,
{
    push_str(out, "[");
    let ghost start = out@;
    let ghost items = strings_view(v@).map_values(|s: Seq<char>| str_debug(s));
    let mut i: usize = 0;
    while i < v.len()
        invariant
            i <= v.len(),
            items == strings_view(v@).map_values(|s: Seq<char>| str_debug(s)),
            out@ == start + join(items.subrange(0, i as int), ", "@),
        decreases v.len() - i,
    {
        if i > 0 {
            push_str(out, ", ");
        }
        let d = debug_str(v[i].as_str());
        assert(d@ == items[i as int]);
        push_str(out, d.as_str());
        i += 1;
        assert(items.subrange(0, i as int).drop_last() =~= items.subrange(0, i - 1));
        assert(i == 1 ==> items.subrange(0, i as int)[0] == items[0]);
    }
    assert(items.subrange(0, items.len() as int) =~= items);
    push_str(out, "]");
}

/// Appends the Debug rendering of an optional list of strings.
fn push_debug_opt_list(out: &mut Vec<char>, o: &Option<Vec<String>>)
    ensures
        final(out)@ == old(out)@ + debug_opt_list(
            match o {
                Some(v) => Some(strings_view(v@)),
                None => None,
            },
        ),
{
    match o {
        Some(v) => {
            let ghost start = out@;
            push_str(out, "Some(");
            push_debug_list(out, v);
            push_str(out, ")");
            proof {
                reveal_strlit("Some(");
                reveal_strlit("[");
                reveal_strlit("]");
                reveal_strlit(")");
                reveal_strlit("Some([");
                reveal_strlit("])");
                assert(out@ =~= start + debug_opt_list(Some(strings_view(v@))));
            }
        },
        None => push_str(out, "None"),
    }
}

/// Appends the Debug rendering of an optional string.
fn push_debug_opt_string(out: &mut Vec<char>, o: &Option<String>)
    ensures
        final(out)@ == old(out)@ + debug_opt_string(
            match o {
                Some(s) => Some(s@),
                None => None,
            },
        ),
{
    match o {
        Some(s) => {
            push_str(out, "Some(");
            let d = debug_str(s.as_str());
            push_str(out, d.as_str());
            push_str(out, ")");
        },
        None => push_str(out, "None"),
    }
}

impl HttpHandler {
    /// The reply that serves `mock`: its response, sent after its delay, and
    /// followed by a shutdown when it asks to close the connection. Fails
    /// when the delay could bring humantime's seconds to `u64::MAX` (see
    /// `delay_bounded`) or is not a duration.
    pub fn respond(mock: &MockBlock) -> (r: Result<Reply, HandleError>)
        ensures
            match mock.response.options.delay {
                Some(d) => if !delay_bounded(d@) {
                    r matches Err(HandleError::DelayTooLong(t)) && t@ == d@
                } else if humantime_duration(d@) is None {
                    r matches Err(HandleError::InvalidDelay { text: t, .. }) && t@ == d@
                } else {
                    r is Ok
                },
                None => r is Ok,
            },
            r matches Ok(reply) ==> mock_reply(reply, *mock),
    {
        let bytes = mock.response.build();
        let delay = match &mock.response.options.delay {
            Some(d) => {
                if !delay_in_range(d.as_str()) {
                    return Err(HandleError::DelayTooLong(copy_string(d)));
                }
                match parse_duration(d.as_str()) {
                    Ok(t) => Some(t),
                    Err(error) => {
                        return Err(HandleError::InvalidDelay { text: copy_string(d), error });
                    },
                }
            },
            None => None,
        };
        let shutdown = match mock.response.options.connection_close {
            Some(b) => b,
            None => false,
        };
        Ok(Reply { bytes, delay, shutdown })
    }

    /// The message that reports `err`.
    pub fn mismatch_message(err: &MatchError) -> (m: String)
        ensures
            m@ == mismatch_message(err@),
    {
        let mut out: Vec<char> = Vec::new();
        match err {
            MatchError::MethodMismatch { expected, found } => {
                push_str(&mut out, "Method mismatch: expected '");
                push_str(&mut out, expected.as_str());
                push_str(&mut out, "', got '");
                push_str(&mut out, found.as_str());
                push_str(&mut out, "'");
            },
            MatchError::QueryMismatch { key, expected, found } => {
                push_str(&mut out, "Query mismatch on '");
                push_str(&mut out, key.as_str());
                push_str(&mut out, "': expected '");
                push_str(&mut out, expected.as_str());
                push_str(&mut out, "', got '");
                push_debug_opt_list(&mut out, found);
                push_str(&mut out, "'");
            },
            MatchError::HeaderMismatch { key, expected, found } => {
                push_str(&mut out, "Header mismatch on '");
                push_str(&mut out, key.as_str());
                push_str(&mut out, "': expected '");
                push_str(&mut out, expected.as_str());
                push_str(&mut out, "', got '");
                push_debug_opt_string(&mut out, found);
                push_str(&mut out, "'");
            },
            MatchError::BodyMismatch { expected, found } => {
                push_str(&mut out, "Body mismatch: expected '");
                push_str(&mut out, expected.as_str());
                push_str(&mut out, "', got '");
                push_str(&mut out, found.as_str());
                push_str(&mut out, "'");
            },
        }
        assert(out@ =~= mismatch_message(err@));
        string_of(out.as_slice())
    }

    /// The reply that reports `err`: a 422 response carrying its message.
    pub fn mismatch(err: &MatchError) -> (r: Reply)
        ensures
            r.bytes@ == mismatch_response(mismatch_message(err@)),
            r.delay is None,
            !r.shutdown,
    {
        let msg = Self::mismatch_message(err);
        let mut out: Vec<char> = Vec::new();
        push_str(
            &mut out,
            "HTTP/1.1 422 Unprocessable Entity\r\nContent-Type: text/plain\r\nContent-Length: ",
        );
        push_decimal(&mut out, msg.as_str().len() as u64);
        push_str(&mut out, "\r\n\r\n");
        push_str(&mut out, msg.as_str());
        assert(out@ =~= mismatch_response(mismatch_message(err@)));
        Reply { bytes: string_of(out.as_slice()), delay: None, shutdown: false }
    }

    /// The reply sent when no mock applies: a 404.
    pub fn no_mock() -> (r: Reply)
        ensures
            r.bytes@ == not_found_response(),
            r.delay is None,
            !r.shutdown,
    {
        let body = "404 Not Found";
        let mut out: Vec<char> = Vec::new();
        push_str(&mut out, "HTTP/1.1 404 Not Found\r\n");
        push_str(&mut out, "Content-Length: ");
        push_decimal(&mut out, body.len() as u64);
        push_str(&mut out, "\r\nContent-Type: text/plain\r\n");
        push_str(&mut out, "\r\n");
        push_str(&mut out, body);
        assert(out@ =~= not_found_response());
        Reply { bytes: string_of(out.as_slice()), delay: None, shutdown: false }
    }

    /// The log message for a request that no mock serves.
    pub fn no_mock_message(request: &HttpRequest) -> (m: String)
        ensures
            m@ == "No mock matched for path "@ + request.path@,
    {
        let mut out: Vec<char> = Vec::new();
        push_str(&mut out, "No mock matched for path ");
        push_str(&mut out, request.path.as_str());
        string_of(out.as_slice())
    }

    /// Answers a parsed request from the mock table: the mock that applies
    /// serves it, a mismatch is reported with a 422, and a request that no
    /// mock applies to gets a 404. An ambiguous route, or a mock delay that
    /// is no duration, is an error.
    pub fn handle(request: &HttpRequest, mocks: &StrMap<MockBlock>) -> (r: Result<
        (Reply, Served),
        HandleError,
    >)
        ensures
            ({
                let route = normalized(request.path@);
                let exact = assoc_index(mocks@, route);
                let hits = wildcard_hits(route, mocks@, mocks@.len() as int);
                if exact < 0 && hits.len() >= 2 {
                    r matches Err(HandleError::Resolve(ResolveError::AmbiguousRoute { route: rt, key, other }))
                        && rt@ == route && key@ == mocks@[hits[1]].0 && other@ == mocks@[hits[0]].0
                } else if exact < 0 && hits.len() == 0 {
                    r matches Ok((reply, Served::NoMock)) && reply.bytes@ == not_found_response()
                        && reply.delay is None && !reply.shutdown
                } else {
                    served_by(r, mocks@[if exact >= 0 {
                        exact
                    } else {
                        hits[0]
                    }].1, request)
                }
            }),
    {
        let resolver = HttpResolver;
        match resolver.resolve(request, mocks) {
            Err(e) => Err(HandleError::Resolve(e)),
            Ok(Resolution::Matched { mock, .. }) => {
                let reply = Self::respond(mock)?;
                Ok((reply, Served::Mock))
            },
            Ok(Resolution::Mismatch { diagnostics }) => {
                let reply = Self::mismatch(&diagnostics);
                Ok((reply, Served::Mismatch(diagnostics)))
            },
            Ok(Resolution::NotFound) => Ok((Self::no_mock(), Served::NoMock)),
        }
    }
}

/// A mock key without placeholders matches exactly the route equal to it,
/// and binds no parameter.
pub proof fn law_literal_key_matches_only_itself(route: Seq<char>, key: Seq<char>)
    requires
        forall|i: int|
            0 <= i < split(key, colons()).len() ==> !is_placeholder(#[trigger] split(key, colons())[i]),
    ensures
        wildcard_params(route, key) is Some <==> route == key,
        route == key ==> wildcard_params(route, key) == Some(Seq::<(Seq<char>, Seq<char>)>::empty()),
{
    let rs = split(route, colons());
    let ms = split(key, colons());
    if segments_fit(rs, ms) {
        assert(rs =~= ms) by {
            assert forall|i: int| 0 <= i < ms.len() implies rs[i] == ms[i] by {
                assert(!is_placeholder(ms[i]));
            }
        }
        crate::text::lemma_join_split(route, colons());
        crate::text::lemma_join_split(key, colons());
    }
    if route == key {
        assert(segments_fit(rs, ms));
        lemma_bound_params_literal(rs, ms, ms.len() as int);
    }
}

/// Without placeholders, no parameter is bound.
proof fn lemma_bound_params_literal(rs: Seq<Seq<char>>, ms: Seq<Seq<char>>, n: int)
    requires
        n <= ms.len(),
        forall|i: int| 0 <= i < ms.len() ==> !is_placeholder(#[trigger] ms[i]),
    ensures
        bound_params(rs, ms, n) == Seq::<(Seq<char>, Seq<char>)>::empty(),
    decreases n,
{
    if n > 0 {
        lemma_bound_params_literal(rs, ms, n - 1);
    }
}

/// A reply closes the connection exactly when its mock asks for it with
/// `connection_close = true`; with `false`, or nothing said, the connection
/// stays open.
pub proof fn law_shutdown_iff_connection_close(reply: Reply, mock: MockBlock)
    requires
        mock_reply(reply, mock),
    ensures
        reply.shutdown <==> mock.response.options.connection_close == Some(true),
        mock.response.options.connection_close == Some(false) ==> !reply.shutdown,
        mock.response.options.connection_close is None ==> !reply.shutdown,
{
}

/// The parameters bound so far have distinct names.
proof fn lemma_bound_params_unique(rs: Seq<Seq<char>>, ms: Seq<Seq<char>>, n: int)
    requires
        n <= ms.len(),
    ensures
        crate::strmap::keys_unique(bound_params(rs, ms, n)),
    decreases n,
{
    if n > 0 {
        lemma_bound_params_unique(rs, ms, n - 1);
        if is_placeholder(ms[n - 1]) {
            crate::strmap::lemma_assoc_insert_unique(
                bound_params(rs, ms, n - 1),
                placeholder_name(ms[n - 1]),
                rs[n - 1],
            );
        }
    }
}

/// Among the first `n` segments, the placeholder `{name}` at `i` (the only
/// segment spelled so) binds `name` to the route segment at `i`.
proof fn lemma_bound_params_binds(
    rs: Seq<Seq<char>>,
    ms: Seq<Seq<char>>,
    i: int,
    name: Seq<char>,
    n: int,
)
    requires
        0 <= i < n <= ms.len(),
        ms[i] == seq!['{'] + name + seq!['}'],
        forall|j: int| 0 <= j < ms.len() && j != i ==> ms[j] != ms[i],
    ensures
        crate::strmap::assoc_get(bound_params(rs, ms, n), name) == Some(rs[i]),
    decreases n,
{
    lemma_bound_params_unique(rs, ms, n - 1);
    let prev = bound_params(rs, ms, n - 1);
    if n - 1 == i {
        assert(is_placeholder(ms[i]));
        assert(placeholder_name(ms[i]) =~= name);
        crate::strmap::law_insert_then_get(prev, name, rs[i], name);
    } else {
        lemma_bound_params_binds(rs, ms, i, name, n - 1);
        if is_placeholder(ms[n - 1]) {
            let other = placeholder_name(ms[n - 1]);
            if other == name {
                assert(ms[n - 1] =~= seq!['{'] + other + seq!['}']);
            }
            crate::strmap::law_insert_then_get(prev, other, rs[n - 1], name);
        }
    }
}

/// When a route fits a mock key, each placeholder `{name}` of the key (one
/// not repeated in it) binds `name` to the route segment in its place.
pub proof fn law_placeholder_binds_its_segment(
    route: Seq<char>,
    key: Seq<char>,
    i: int,
    name: Seq<char>,
)
    requires
        wildcard_params(route, key) is Some,
        0 <= i < split(key, colons()).len(),
        split(key, colons())[i] == seq!['{'] + name + seq!['}'],
        forall|j: int|
            0 <= j < split(key, colons()).len() && j != i ==> split(key, colons())[j] != split(
                key,
                colons(),
            )[i],
    ensures
        crate::strmap::assoc_get(wildcard_params(route, key)->0, name) == Some(
            split(route, colons())[i],
        ),
{
    let ms = split(key, colons());
    lemma_bound_params_binds(split(route, colons()), ms, i, name, ms.len() as int);
}

/// The 422 reply to a mismatch starts with its status line and ends with
/// the message, after the blank line.
pub proof fn law_mismatch_response_shape(msg: Seq<char>)
    ensures
        "HTTP/1.1 422 Unprocessable Entity\r\n"@.is_prefix_of(mismatch_response(msg)),
        ("\r\n\r\n"@ + msg).is_suffix_of(mismatch_response(msg)),
{
    reveal_strlit("HTTP/1.1 422 Unprocessable Entity\r\n");
    reveal_strlit("HTTP/1.1 422 Unprocessable Entity\r\nContent-Type: text/plain\r\nContent-Length: ");
    reveal_strlit("\r\n\r\n");
    let head = "HTTP/1.1 422 Unprocessable Entity\r\nContent-Type: text/plain\r\nContent-Length: "@
        + decimal(utf8_len(msg) as nat);
    let r = mismatch_response(msg);
    assert(r =~= head + ("\r\n\r\n"@ + msg));
    assert(r.subrange(0, 35) =~= "HTTP/1.1 422 Unprocessable Entity\r\n"@);
    assert(r.subrange(r.len() - ("\r\n\r\n"@ + msg).len(), r.len() as int) =~= "\r\n\r\n"@ + msg);
}

/// The 404 reply starts with its status line and ends with the text
/// `404 Not Found` after the blank line.
pub proof fn law_not_found_response_shape()
    ensures
        "HTTP/1.1 404 Not Found\r\n"@.is_prefix_of(not_found_response()),
        "\r\n\r\n404 Not Found"@.is_suffix_of(not_found_response()),
{
    reveal_strlit("HTTP/1.1 404 Not Found\r\n");
    reveal_strlit("\r\n\r\n404 Not Found");
    reveal_strlit("\r\nContent-Type: text/plain\r\n");
    reveal_strlit("\r\n");
    reveal_strlit("404 Not Found");
    let r = not_found_response();
    let n = r.len();
    assert(r.subrange(0, 24) =~= "HTTP/1.1 404 Not Found\r\n"@);
    assert(r.subrange(n - 17, n as int) =~= "\r\n\r\n404 Not Found"@);
}

/// How a mock answers a request: a request that fails one of its
/// constraints gets a 422 reporting it, sent at once on a connection left
/// open; one that meets them all gets the mock's own response, when the
/// mock asks for no delay at once.
pub proof fn law_served_reply(r: Result<(Reply, Served), HandleError>, mock: MockBlock, request: &HttpRequest)
    requires
        served_by(r, mock, request),
    ensures
        request_failure(mock.matcher, request) matches Some(e) ==> (r matches Ok(
            (reply, Served::Mismatch(d)),
        ) && d@ == e && "HTTP/1.1 422 Unprocessable Entity\r\n"@.is_prefix_of(reply.bytes@)
            && reply.delay is None && !reply.shutdown),
        request_failure(mock.matcher, request) is None && mock.response.options.delay is None
            ==> (r matches Ok((reply, Served::Mock)) && reply.bytes@ == response_text(
            mock.response,
        ) && reply.delay is None),
{
    if let Some(e) = request_failure(mock.matcher, request) {
        law_mismatch_response_shape(mismatch_message(e));
    }
}

/// A route never fits a mock key with a different number of `::`-separated
/// segments, placeholders or not.
pub proof fn law_segment_counts_must_agree(route: Seq<char>, key: Seq<char>)
    requires
        split(route, colons()).len() != split(key, colons()).len(),
    ensures
        wildcard_params(route, key) is None,
{
}

} // verus!
