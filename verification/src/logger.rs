//! Log lines: protocol badges, mismatch diagnostics and their rendering.

use vstd::prelude::*;

use crate::colors::{
    badge, badge_blue, badge_bright_cyan, badge_purple, badge_red, badge_yellow,
    paint_bold, paint_green, paint_red, painted, spaces, strip_ansi, pad_right,
};
use crate::handler::{debug_items, push_debug_list};
use crate::request::{strings_view, utf8_len};
use crate::strings::{chars_of, push_str, string_of};
use crate::text::{find_exec, slice_chars, trim_end, trim_end_exec};

verus! {

/// Why a request did not match a mock.
#[allow(inconsistent_fields)]
#[derive(Debug)]
pub enum MatchError {
    MethodMismatch { expected: String, found: String },
    /// `found` holds the request's values for the key, `None` when it has none.
    QueryMismatch { key: String, expected: String, found: Option<Vec<String>> },
    /// `found` holds the request's value for the header, `None` when it has none.
    HeaderMismatch { key: String, expected: String, found: Option<String> },
    BodyMismatch { expected: String, found: String },
}

/// A `MatchError` with its strings taken as character sequences.
#[allow(inconsistent_fields)]
pub enum MatchErrorView {
    MethodMismatch { expected: Seq<char>, found: Seq<char> },
    QueryMismatch { key: Seq<char>, expected: Seq<char>, found: Option<Seq<Seq<char>>> },
    HeaderMismatch { key: Seq<char>, expected: Seq<char>, found: Option<Seq<char>> },
    BodyMismatch { expected: Seq<char>, found: Seq<char> },
}

impl View for MatchError {
    type V = MatchErrorView;

    open spec fn view(&self) -> MatchErrorView {
        match self {
            MatchError::MethodMismatch { expected, found } => MatchErrorView::MethodMismatch {
                expected: expected@,
                found: found@,
            },
            MatchError::QueryMismatch { key, expected, found } => MatchErrorView::QueryMismatch {
                key: key@,
                expected: expected@,
                found: match found {
                    Some(v) => Some(strings_view(v@)),
                    None => None,
                },
            },
            MatchError::HeaderMismatch { key, expected, found } => MatchErrorView::HeaderMismatch {
                key: key@,
                expected: expected@,
                found: match found {
                    Some(v) => Some(v@),
                    None => None,
                },
            },
            MatchError::BodyMismatch { expected, found } => MatchErrorView::BodyMismatch {
                expected: expected@,
                found: found@,
            },
        }
    }
}

/// The label of each kind of mismatch.
pub open spec fn label_of(e: MatchErrorView) -> Seq<char> {
    match e {
        MatchErrorView::MethodMismatch { .. } => seq!['M', 'E', 'T', 'H', 'O', 'D'],
        MatchErrorView::QueryMismatch { .. } => seq!['Q', 'U', 'E', 'R', 'Y'],
        MatchErrorView::HeaderMismatch { .. } => seq!['H', 'E', 'A', 'D', 'E', 'R'],
        MatchErrorView::BodyMismatch { .. } => seq!['B', 'O', 'D', 'Y'],
    }
}

impl MatchError {
    /// A short upper-case label naming the kind of mismatch.
    pub fn label(&self) -> (l: &'static str)
        ensures
            l@ == label_of(self@),
    {
        proof {
            reveal_strlit("METHOD");
            reveal_strlit("QUERY");
            reveal_strlit("HEADER");
            reveal_strlit("BODY");
        }
        match self {
            MatchError::MethodMismatch { .. } => "METHOD",
            MatchError::QueryMismatch { .. } => "QUERY",
            MatchError::HeaderMismatch { .. } => "HEADER",
            MatchError::BodyMismatch { .. } => "BODY",
        }
    }
}

/// Removes ANSI escape sequences: each escape character and what follows
/// it through the next `m`.
pub fn strip_ainsi(s: &str) -> (r: String)
    ensures
        r@ == strip_ansi(s@),
{
    let cs = chars_of(s);
    let n = cs.len();
    let mut out: Vec<char> = Vec::new();
    let m = vec!['m'];
    assert(m@ =~= seq!['m']);
    let mut i: usize = 0;
    assert(cs@.subrange(0, n as int) =~= cs@);
    while i < n
        invariant
            i <= n,
            n == cs@.len(),
            m@ == seq!['m'],
            cs@ == s@,
            out@ + strip_ansi(cs@.subrange(i as int, n as int)) == strip_ansi(cs@),
        decreases n - i,
    {
        let ghost t = cs@.subrange(i as int, n as int);
        if cs[i] == '\u{1b}' {
            let rest = slice_chars(cs.as_slice(), i + 1, n);
            assert(rest@ =~= t.drop_first());
            match find_exec(rest.as_slice(), m.as_slice()) {
                Some(j) => {
                    assert(j + 1 <= rest@.len());
                    assert(t.subrange(j + 2, t.len() as int) =~= cs@.subrange(i + j + 2, n as int));
                    i = i + j + 2;
                },
                None => {
                    assert(strip_ansi(cs@.subrange(n as int, n as int)) =~= Seq::<char>::empty());
                    assert(out@ + strip_ansi(cs@.subrange(n as int, n as int)) =~= out@);
                    i = n;
                },
            }
        } else {
            let ghost before = out@;
            out.push(cs[i]);
            assert(t.drop_first() =~= cs@.subrange(i + 1, n as int));
            assert(out@ + strip_ansi(cs@.subrange(i + 1, n as int)) =~= before + strip_ansi(t));
            i += 1;
        }
    }
    assert(strip_ansi(cs@.subrange(n as int, n as int)) =~= Seq::<char>::empty());
    assert(out@ =~= out@ + strip_ansi(cs@.subrange(n as int, n as int)));
    string_of(out.as_slice())
}

/// The protocols a log line can be about.
#[derive(Clone, Copy, Debug)]
pub enum Protocol {
    Http,
    WebSocket,
    Custom,
}

/// The text of each protocol's badge.
pub open spec fn protocol_label(p: Protocol) -> Seq<char> {
    match p {
        Protocol::Http => "HTTP"@,
        Protocol::WebSocket => "WS"@,
        Protocol::Custom => "CSTM"@,
    }
}

/// The graphic rendition of each protocol's badge: bold white on blue, bold
/// white on bright cyan, bold black on yellow.
pub open spec fn protocol_codes(p: Protocol) -> Seq<char> {
    match p {
        Protocol::Http => "1;44;37"@,
        Protocol::WebSocket => "1;106;37"@,
        Protocol::Custom => "1;43;30"@,
    }
}

impl Protocol {
    /// The protocol's badge centered in `width` columns: "HTTP" white on
    /// blue, "WS" white on bright cyan, "CSTM" black on yellow, all bold.
    fn badge(&self, width: usize) -> (r: String)
        ensures
            badge(r@, protocol_label(*self), width as nat, protocol_codes(*self)),
    {
        match self {
            Protocol::Http => badge_blue("HTTP", width),
            Protocol::WebSocket => badge_bright_cyan("WS", width),
            Protocol::Custom => badge_yellow("CSTM", width),
        }
    }

    /// The protocol's badge.
    pub fn style(&self) -> (r: String)
        ensures
            badge(r@, protocol_label(*self), 0, protocol_codes(*self)),
    {
        self.badge(0)
    }
}

/// Where log lines go.
#[derive(Debug)]
pub enum Channel {
    Stdout,
    Stderr,
    /// Appended to the file at this path.
    File(String),
}

/// `line` is `prefix` followed by a rendering of `text` in the rendition
/// `codes`.
pub open spec fn line_shape(
    line: Seq<char>,
    prefix: Seq<char>,
    text: Seq<char>,
    codes: Seq<char>,
) -> bool {
    exists|g: Seq<char>| #[trigger] painted(g, text, codes) && line == prefix + g
}

/// The rendition of what was expected: green.
pub open spec fn green() -> Seq<char> {
    "32"@
}

/// The rendition of what was found: red.
pub open spec fn red() -> Seq<char> {
    "31"@
}

/// What a mismatch report shows as found for a query key.
pub open spec fn query_found_text(found: Option<Seq<Seq<char>>>) -> Seq<char> {
    match found {
        Some(v) => "["@ + debug_items(v) + "]"@,
        None => "<missing>"@,
    }
}

/// What a mismatch report shows as found for a header.
pub open spec fn header_found_text(found: Option<Seq<char>>) -> Seq<char> {
    match found {
        Some(v) => if v.len() == 0 {
            "<missing>"@
        } else {
            v
        },
        None => "<missing>"@,
    }
}

/// `l0` and `l1` are the two lines that detail `e`: what was expected (in
/// green) and what was found (in red).
pub open spec fn diff_shape(e: MatchErrorView, l0: Seq<char>, l1: Seq<char>) -> bool {
    match e {
        MatchErrorView::MethodMismatch { expected, found } => line_shape(
            l0,
            "expected: "@,
            expected,
            green(),
        ) && line_shape(l1, "found   : "@, found, red()),
        MatchErrorView::QueryMismatch { key, expected, found } => line_shape(
            l0,
            "expected: "@ + key + " = "@,
            expected,
            green(),
        ) && line_shape(l1, "found   : "@, query_found_text(found), red()),
        MatchErrorView::HeaderMismatch { key, expected, found } => line_shape(
            l0,
            "expected: "@ + key + " = "@,
            expected,
            green(),
        ) && line_shape(l1, "found   : "@, header_found_text(found), red()),
        MatchErrorView::BodyMismatch { expected, found } => line_shape(
            l0,
            "expected: "@,
            expected,
            green(),
        ) && line_shape(l1, "found   : "@, found, red()),
    }
}

/// `prefix` followed by `text` in green.
fn green_line(prefix: &str, text: &str) -> (r: String)
    ensures
        line_shape(r@, prefix@, text@, green()),
{
    let g = paint_green(text);
    let mut out: Vec<char> = Vec::new();
    push_str(&mut out, prefix);
    push_str(&mut out, g.as_str());
    assert(painted(g@, text@, green()));
    string_of(out.as_slice())
}

/// `prefix` followed by `text` in red.
fn red_line(prefix: &str, text: &str) -> (r: String)
    ensures
        line_shape(r@, prefix@, text@, red()),
{
    let g = paint_red(text);
    let mut out: Vec<char> = Vec::new();
    push_str(&mut out, prefix);
    push_str(&mut out, g.as_str());
    assert(painted(g@, text@, red()));
    string_of(out.as_slice())
}

/// `"expected: " + key + " = "`.
fn keyed_prefix(key: &String) -> (r: String)
    ensures
        r@ == "expected: "@ + key@ + " = "@,
{
    let mut out: Vec<char> = Vec::new();
    push_str(&mut out, "expected: ");
    push_str(&mut out, key.as_str());
    push_str(&mut out, " = ");
    string_of(out.as_slice())
}

impl MatchError {
    /// The two lines that detail the mismatch: what was expected, in
    /// green, and what was found, in red.
    pub fn diff_lines(&self) -> (lines: Vec<String>)
        ensures
            lines@.len() == 2,
            diff_shape(self@, lines@[0]@, lines@[1]@),
    {
        let mut lines: Vec<String> = Vec::new();
        match self {
            MatchError::MethodMismatch { expected, found } => {
                lines.push(green_line("expected: ", expected.as_str()));
                lines.push(red_line("found   : ", found.as_str()));
            },
            MatchError::QueryMismatch { key, expected, found } => {
                let prefix = keyed_prefix(key);
                lines.push(green_line(prefix.as_str(), expected.as_str()));
                let shown = match found {
                    Some(v) => {
                        let mut out: Vec<char> = Vec::new();
                        push_debug_list(&mut out, v);
                        string_of(out.as_slice())
                    },
                    None => "<missing>".to_string(),
                };
                lines.push(red_line("found   : ", shown.as_str()));
            },
            MatchError::HeaderMismatch { key, expected, found } => {
                let prefix = keyed_prefix(key);
                lines.push(green_line(prefix.as_str(), expected.as_str()));
                let shown = match found {
                    Some(v) => if v.as_str().is_empty() {
                        "<missing>".to_string()
                    } else {
                        copy_text(v)
                    },
                    None => "<missing>".to_string(),
                };
                lines.push(red_line("found   : ", shown.as_str()));
            },
            MatchError::BodyMismatch { expected, found } => {
                lines.push(green_line("expected: ", expected.as_str()));
                lines.push(red_line("found   : ", found.as_str()));
            },
        }
        lines
    }
}

/// A copy of `s`.
fn copy_text(s: &String) -> (r: String)
    ensures
        r@ == s@,
{
    s.clone()
}

/// Formats and routes log lines.
pub struct Logger {
    pub channel: Channel,
}

/// `line` is a log line about `protocol` from `sender`: the protocol's
/// badge centered in 8 columns, the bold sender in brackets left-aligned in
/// 20 columns, then `: ` and the message.
pub open spec fn log_layout(
    line: Seq<char>,
    protocol: Protocol,
    sender: Seq<char>,
    msg: Seq<char>,
    b: Seq<char>,
    e: Seq<char>,
) -> bool {
    &&& badge(b, protocol_label(protocol), 8, protocol_codes(protocol))
    &&& painted(e, sender, "1"@)
    &&& line == b + " "@ + pad_right(20, "["@ + e + "]"@) + ": "@ + msg
}

/// `line` is a server log line: the author's badge (white on purple)
/// centered in 8 columns, a space, then the message.
pub open spec fn slog_layout(line: Seq<char>, author: Seq<char>, msg: Seq<char>, b: Seq<char>) -> bool {
    &&& badge(b, author, 8, "1;45;37"@)
    &&& line == b + " "@ + msg
}

/// The head line of a mismatch report.
pub open spec fn mismatch_header(b: Seq<char>, e: Seq<char>, l: Seq<char>) -> Seq<char> {
    b + " "@ + pad_right(20, "["@ + e + "]"@) + " "@ + l
}

/// The indentation of the detail lines: as many spaces as the header has
/// bytes once stripped of escapes, less one.
pub open spec fn mismatch_indent(header: Seq<char>) -> Seq<char> {
    let w = utf8_len(strip_ansi(header));
    spaces(
        if w > 0 {
            (w - 1) as nat
        } else {
            0
        },
    )
}

/// `out` is a mismatch report: the header (protocol badge, bold sender, the
/// label white on red), then the two detail lines in bold as branches of a
/// tree, trailing whitespace trimmed.
pub open spec fn mismatch_layout(
    out: Seq<char>,
    protocol: Protocol,
    sender: Seq<char>,
    kind: MatchErrorView,
    b: Seq<char>,
    e: Seq<char>,
    l: Seq<char>,
    x0: Seq<char>,
    x1: Seq<char>,
    d0: Seq<char>,
    d1: Seq<char>,
) -> bool {
    let header = mismatch_header(b, e, l);
    let indent = mismatch_indent(header);
    &&& badge(b, protocol_label(protocol), 8, protocol_codes(protocol))
    &&& painted(e, sender, "1"@)
    &&& badge(l, label_of(kind), 0, "1;41;37"@)
    &&& diff_shape(kind, x0, x1)
    &&& painted(d0, x0, "1"@)
    &&& painted(d1, x1, "1"@)
    &&& out == trim_end(
        header + "\n"@ + indent + "├── "@ + d0 + "\n"@ + indent + "└── "@ + d1 + "\n"@,
    )
}

impl Logger {
    /// A logger writing to `channel`.
    pub fn new(channel: Channel) -> (l: Logger)
        ensures
            l.channel == channel,
    {
        Logger { channel }
    }

    /// Sends later lines to `channel`.
    pub fn set_channel(&mut self, channel: Channel)
        ensures
            final(self).channel == channel,
    {
        self.channel = channel;
    }

    /// The log line for `msg`, about `protocol`, from `sender`.
    pub fn log(protocol: Protocol, sender: &str, msg: &str) -> (line: String)
        ensures
            exists|b: Seq<char>, e: Seq<char>|
                #[trigger] log_layout(line@, protocol, sender@, msg@, b, e),
    {
        let b = protocol.badge(8);
        let e = paint_bold(sender);
        let mut tag: Vec<char> = Vec::new();
        push_str(&mut tag, "[");
        push_str(&mut tag, e.as_str());
        push_str(&mut tag, "]");
        let mut out: Vec<char> = Vec::new();
        push_str(&mut out, b.as_str());
        push_str(&mut out, " ");
        push_padded_right(&mut out, tag.as_slice(), 20);
        push_str(&mut out, ": ");
        push_str(&mut out, msg);
        let line = string_of(out.as_slice());
        assert(log_layout(line@, protocol, sender@, msg@, b@, e@));
        line
    }

    /// The server log line for `msg`, from `author`.
    pub fn slog(author: &str, msg: &str) -> (line: String)
        ensures
            exists|b: Seq<char>| #[trigger] slog_layout(line@, author@, msg@, b),
    {
        let b = badge_purple(author, 8);
        let mut out: Vec<char> = Vec::new();
        push_str(&mut out, b.as_str());
        push_str(&mut out, " ");
        push_str(&mut out, msg);
        let line = string_of(out.as_slice());
        assert(slog_layout(line@, author@, msg@, b@));
        line
    }

    /// The report of a mismatch about `protocol` from `sender`.
    pub fn mismatch(protocol: Protocol, sender: &str, kind: &MatchError) -> (report: String)
        ensures
            exists|
                b: Seq<char>,
                e: Seq<char>,
                l: Seq<char>,
                x0: Seq<char>,
                x1: Seq<char>,
                d0: Seq<char>,
                d1: Seq<char>,
            |
                #[trigger] mismatch_layout(report@, protocol, sender@, kind@, b, e, l, x0, x1, d0, d1),
    {
        let b = protocol.badge(8);
        let e = paint_bold(sender);
        let l = badge_red(kind.label(), 0);
        let mut tag: Vec<char> = Vec::new();
        push_str(&mut tag, "[");
        push_str(&mut tag, e.as_str());
        push_str(&mut tag, "]");
        let mut header: Vec<char> = Vec::new();
        push_str(&mut header, b.as_str());
        push_str(&mut header, " ");
        push_padded_right(&mut header, tag.as_slice(), 20);
        push_str(&mut header, " ");
        push_str(&mut header, l.as_str());
        let header_s = string_of(header.as_slice());
        assert(header_s@ == mismatch_header(b@, e@, l@));
        let stripped = strip_ainsi(header_s.as_str());
        let w = stripped.as_str().len();
        let width = if w > 0 {
            w - 1
        } else {
            0
        };
        let mut indent: Vec<char> = Vec::new();
        push_spaces(&mut indent, width);
        assert(indent@ == mismatch_indent(header_s@));
        let lines = kind.diff_lines();
        let d0 = paint_bold(lines[0].as_str());
        let d1 = paint_bold(lines[1].as_str());
        let mut out: Vec<char> = Vec::new();
        push_str(&mut out, header_s.as_str());
        push_str(&mut out, "\n");
        push_str(&mut out, string_of(indent.as_slice()).as_str());
        push_str(&mut out, "├── ");
        push_str(&mut out, d0.as_str());
        push_str(&mut out, "\n");
        push_str(&mut out, string_of(indent.as_slice()).as_str());
        push_str(&mut out, "└── ");
        push_str(&mut out, d1.as_str());
        push_str(&mut out, "\n");
        let trimmed = trim_end_exec(out.as_slice());
        let report = string_of(trimmed.as_slice());
        assert(mismatch_layout(
            report@,
            protocol,
            sender@,
            kind@,
            b@,
            e@,
            l@,
            lines@[0]@,
            lines@[1]@,
            d0@,
            d1@,
        ));
        report
    }
}

/// Appends `n` spaces.
fn push_spaces(out: &mut Vec<char>, n: usize)
    ensures
        final(out)@ == old(out)@ + spaces(n as nat),
{
    let mut i: usize = 0;
    while i < n
        invariant
            i <= n,
            out@ == old(out)@ + spaces(i as nat),
        decreases n - i,
    {
        out.push(' ');
        i += 1;
        assert(out@ =~= old(out)@ + spaces(i as nat));
    }
}

/// Appends `s`, then spaces up to `width` characters in all.
fn push_padded_right(out: &mut Vec<char>, s: &[char], width: usize)
    ensures
        final(out)@ == old(out)@ + pad_right(width as nat, s@),
{
    crate::text::push_all(out, s);
    if s.len() < width {
        push_spaces(out, width - s.len());
    } else {
        assert(out@ =~= old(out)@ + pad_right(width as nat, s@));
    }
}

/// Each kind of mismatch is labelled by its own name in capitals, and each
/// protocol's badge reads its own short name.
pub proof fn law_labels_name_their_kind(e: MatchErrorView, p: Protocol)
    ensures
        e is MethodMismatch ==> label_of(e) == "METHOD"@,
        e is QueryMismatch ==> label_of(e) == "QUERY"@,
        e is HeaderMismatch ==> label_of(e) == "HEADER"@,
        e is BodyMismatch ==> label_of(e) == "BODY"@,
        p is Http ==> protocol_label(p) == "HTTP"@,
        p is WebSocket ==> protocol_label(p) == "WS"@,
        p is Custom ==> protocol_label(p) == "CSTM"@,
{
    reveal_strlit("METHOD");
    reveal_strlit("QUERY");
    reveal_strlit("HEADER");
    reveal_strlit("BODY");
}

} // verus!
