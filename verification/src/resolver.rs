//! Telling the protocol of a new connection from its first bytes.

use vstd::prelude::*;
use vstd::utf8::{decode_utf8, valid_utf8};

use crate::strings::{chars_of, str_from_utf8};
use crate::text::{
    ascii_lower, ascii_lower_exec, chars_eq, contains, contains_exec, find_exec, find_from, index_of,
    slice_chars,
};

verus! {

broadcast use vstd::string::group_string_axioms;

/// The protocols the server tells apart.
#[derive(Debug, PartialEq, Eq, Hash, Structural)]
pub enum Protocol {
    Http,
    WebSocket,
    Custom,
}

/// Why the first bytes of a connection could not be read.
#[derive(Debug, PartialEq, Eq, Structural)]
pub enum ProtocolError {
    /// They are not valid UTF-8.
    InvalidUtf8,
}

/// The HTTP methods.
pub open spec fn is_http_method(w: Seq<char>) -> bool {
    ||| w == "GET"@
    ||| w == "POST"@
    ||| w == "PUT"@
    ||| w == "DELETE"@
    ||| w == "PATCH"@
    ||| w == "HEAD"@
    ||| w == "OPTIONS"@
    ||| w == "CONNECT"@
    ||| w == "TRACE"@
}

/// `data` looks like HTTP: what precedes its first space is an HTTP
/// method, and it contains `HTTP/`.
pub open spec fn detects_http(data: Seq<char>) -> bool {
    match index_of(data, ' ') {
        Some(i) => is_http_method(data.subrange(0, i)) && contains(data, "HTTP/"@),
        None => false,
    }
}

/// `data` looks like a WebSocket upgrade: HTTP that contains, in any
/// ASCII case, `upgrade: websocket`.
pub open spec fn detects_websocket(data: Seq<char>) -> bool {
    detects_http(data) && contains(ascii_lower(data), "upgrade: websocket"@)
}

/// The protocol of a connection whose first bytes decode to `data`.
pub open spec fn protocol_of(data: Seq<char>) -> Protocol {
    if detects_websocket(data) {
        Protocol::WebSocket
    } else if detects_http(data) {
        Protocol::Http
    } else {
        Protocol::Custom
    }
}

fn word_is(w: &[char], lit: &str) -> (b: bool)
    ensures
        b == (w@ == lit@),
{
    let l = chars_of(lit);
    chars_eq(w, l.as_slice())
}

fn is_http_method_exec(w: &[char]) -> (b: bool)
    ensures
        b == is_http_method(w@),
{
    word_is(w, "GET") || word_is(w, "POST") || word_is(w, "PUT") || word_is(w, "DELETE")
        || word_is(w, "PATCH") || word_is(w, "HEAD") || word_is(w, "OPTIONS") || word_is(
        w,
        "CONNECT",
    ) || word_is(w, "TRACE")
}

impl Protocol {
    /// Whether `data` looks like an HTTP request.
    pub fn detect_http(data: &str) -> (b: bool)
        ensures
            b == detects_http(data@),
    {
        let cs = chars_of(data);
        let space = vec![' '];
        assert(space@ =~= seq![' ']);
        match find_exec(cs.as_slice(), space.as_slice()) {
            Some(i) => {
                let word = slice_chars(cs.as_slice(), 0, i);
                if is_http_method_exec(word.as_slice()) {
                    let marker = chars_of("HTTP/");
                    contains_exec(cs.as_slice(), marker.as_slice())
                } else {
                    false
                }
            },
            None => false,
        }
    }

    /// Whether `data` looks like a WebSocket upgrade request.
    pub fn detect_websocket(data: &str) -> (b: bool)
        ensures
            b == detects_websocket(data@),
    {
        if !Self::detect_http(data) {
            return false;
        }
        let cs = chars_of(data);
        let lower = ascii_lower_exec(cs.as_slice());
        let marker = chars_of("upgrade: websocket");
        contains_exec(lower.as_slice(), marker.as_slice())
    }

    /// The protocol of a connection whose first bytes (as peeked) are `bytes`:
    /// WebSocket, else HTTP, else custom; an error when they are not UTF-8.
    pub fn from_peek(bytes: &[u8]) -> (r: Result<Protocol, ProtocolError>)
        ensures
            !valid_utf8(bytes@) ==> r == Err::<Protocol, ProtocolError>(ProtocolError::InvalidUtf8),
            valid_utf8(bytes@) ==> r == Ok::<Protocol, ProtocolError>(
                protocol_of(decode_utf8(bytes@)),
            ),
    {
        match str_from_utf8(bytes) {
            Ok(data) => {
                if Self::detect_websocket(data) {
                    Ok(Protocol::WebSocket)
                } else if Self::detect_http(data) {
                    Ok(Protocol::Http)
                } else {
                    Ok(Protocol::Custom)
                }
            },
            Err(_) => Err(ProtocolError::InvalidUtf8),
        }
    }
}

/// A WebSocket upgrade is always HTTP as well.
pub proof fn law_websocket_is_http(data: Seq<char>)
    ensures
        detects_websocket(data) ==> detects_http(data),
        protocol_of(data) == Protocol::Http <==> detects_http(data) && !detects_websocket(data),
{
}

/// In `m` followed by a space, the first space is the one after `m`.
proof fn lemma_first_space(m: Seq<char>, i: int)
    requires
        0 <= i <= m.len(),
        forall|k: int| 0 <= k < m.len() ==> m[k] != ' ',
    ensures
        find_from(m + seq![' '], seq![' '], i) == Some(m.len() as int),
    decreases m.len() - i,
{
    let s = m + seq![' '];
    if i < m.len() {
        assert(s.subrange(i, i + 1)[0] == m[i]);
        lemma_first_space(m, i + 1);
    } else {
        assert(s.subrange(i, i + 1) =~= seq![' ']);
    }
}

/// A request whose first word is one of the HTTP methods (GET, POST, PUT,
/// DELETE, PATCH, HEAD, OPTIONS, CONNECT, TRACE), followed by a space, and
/// which names `HTTP/`, is taken for HTTP: its connection goes to the HTTP
/// handler, or to the WebSocket one when it asks for an upgrade, never to
/// the custom one.
pub proof fn law_http_methods_are_detected(method: Seq<char>, rest: Seq<char>)
    requires
        method == "GET"@ || method == "POST"@ || method == "PUT"@ || method == "DELETE"@ || method
            == "PATCH"@ || method == "HEAD"@ || method == "OPTIONS"@ || method == "CONNECT"@
            || method == "TRACE"@,
        contains(method + seq![' '] + rest, "HTTP/"@),
    ensures
        detects_http(method + seq![' '] + rest),
        protocol_of(method + seq![' '] + rest) != Protocol::Custom,
        !detects_websocket(method + seq![' '] + rest) ==> protocol_of(method + seq![' '] + rest)
            == Protocol::Http,
{
    reveal_strlit("GET");
    reveal_strlit("POST");
    reveal_strlit("PUT");
    reveal_strlit("DELETE");
    reveal_strlit("PATCH");
    reveal_strlit("HEAD");
    reveal_strlit("OPTIONS");
    reveal_strlit("CONNECT");
    reveal_strlit("TRACE");
    let data = method + seq![' '] + rest;
    assert(forall|k: int| 0 <= k < method.len() ==> method[k] != ' ');
    lemma_first_space(method, 0);
    crate::text::lemma_find_from_prefix(method + seq![' '], rest, seq![' '], 0);
    assert(data.subrange(0, method.len() as int) =~= method);
}

/// A connection whose first bytes do not name `HTTP/` is custom.
pub proof fn law_without_http_marker_is_custom(data: Seq<char>)
    requires
        !contains(data, "HTTP/"@),
    ensures
        protocol_of(data) == Protocol::Custom,
{
}

/// A connection whose first word (what precedes the first space) is none of
/// the HTTP methods, or which has no space at all, is custom.
pub proof fn law_non_method_is_custom(data: Seq<char>)
    requires
        index_of(data, ' ') matches Some(i) ==> {
            let w = data.subrange(0, i);
            w != "GET"@ && w != "POST"@ && w != "PUT"@ && w != "DELETE"@ && w != "PATCH"@ && w
                != "HEAD"@ && w != "OPTIONS"@ && w != "CONNECT"@ && w != "TRACE"@
        },
    ensures
        protocol_of(data) == Protocol::Custom,
{
}

/// An HTTP request that asks, in any letter case, for `upgrade: websocket`
/// goes to the WebSocket handler.
pub proof fn law_websocket_upgrade_detected(method: Seq<char>, rest: Seq<char>)
    requires
        method == "GET"@ || method == "POST"@ || method == "PUT"@ || method == "DELETE"@ || method
            == "PATCH"@ || method == "HEAD"@ || method == "OPTIONS"@ || method == "CONNECT"@
            || method == "TRACE"@,
        contains(method + seq![' '] + rest, "HTTP/"@),
        contains(ascii_lower(method + seq![' '] + rest), "upgrade: websocket"@),
    ensures
        protocol_of(method + seq![' '] + rest) == Protocol::WebSocket,
{
    law_http_methods_are_detected(method, rest);
}

} // verus!
