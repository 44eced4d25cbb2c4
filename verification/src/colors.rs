//! Terminal colors, rendered by the `colored` crate, and what survives of
//! them once ANSI escape sequences are stripped.
//!
//! Whether `colored` emits escape sequences depends on the environment
//! (`CLICOLOR`, `NO_COLOR`, `CLICOLOR_FORCE`, whether stdout is a terminal),
//! so each rendering is stated for both outcomes: the bare text when colors
//! are off, or the exact sequences of its rendition around it when they are
//! on. Either way, stripping the sequences gives the text back.

use vstd::prelude::*;

use colored::Colorize;

use crate::text::{join, split};

verus! {

/// The escape character that starts an ANSI sequence.
pub open spec fn esc() -> char {
    '\u{1b}'
}

/// `s` with every ANSI sequence taken out: from an escape character through
/// the next `m`, or to the end when no `m` follows.
pub open spec fn strip_ansi(s: Seq<char>) -> Seq<char>
    decreases s.len(),
{
    if s.len() == 0 {
        Seq::empty()
    } else if s[0] == esc() {
        match crate::text::index_of(s.drop_first(), 'm') {
            Some(j) => if 0 <= j < s.len() - 1 {
                strip_ansi(s.subrange(j + 2, s.len() as int))
            } else {
                Seq::empty()
            },
            None => Seq::empty(),
        }
    } else {
        seq![s[0]] + strip_ansi(s.drop_first())
    }
}

/// Every escape character in `s` has an `m` after it, so that what follows
/// `s` is stripped on its own.
pub open spec fn escapes_closed(s: Seq<char>) -> bool
    decreases s.len(),
{
    if s.len() == 0 {
        true
    } else if s[0] == esc() {
        match crate::text::index_of(s.drop_first(), 'm') {
            Some(j) => if 0 <= j < s.len() - 1 {
                escapes_closed(s.subrange(j + 2, s.len() as int))
            } else {
                false
            },
            None => false,
        }
    } else {
        escapes_closed(s.drop_first())
    }
}

/// `s` holds no escape character.
pub open spec fn plain(s: Seq<char>) -> bool {
    forall|i: int| 0 <= i < s.len() ==> s[i] != esc()
}

/// `n` spaces.
pub open spec fn spaces(n: nat) -> Seq<char> {
    Seq::new(n, |i: int| ' ')
}

/// `s` centered in `width` columns (`{:^width}`): the padding is split
/// evenly, the odd space going right.
pub open spec fn center(width: nat, s: Seq<char>) -> Seq<char> {
    if s.len() >= width {
        s
    } else {
        let pad = (width - s.len()) as nat;
        spaces(pad / 2) + s + spaces((pad - pad / 2) as nat)
    }
}

/// `s` left-aligned in `width` columns (`{:<width}`).
pub open spec fn pad_right(width: nat, s: Seq<char>) -> Seq<char> {
    if s.len() >= width {
        s
    } else {
        s + spaces((width - s.len()) as nat)
    }
}

/// The sequence that resets colors: `ESC [ 0 m`.
pub open spec fn ansi_reset() -> Seq<char> {
    seq![esc(), '[', '0', 'm']
}

/// The sequence that selects the graphic rendition `codes`: `ESC [ codes m`.
pub open spec fn sgr(codes: Seq<char>) -> Seq<char> {
    seq![esc(), '['] + codes + seq!['m']
}

/// `text` with `style` written again after each reset in it, so that an
/// inner colored piece does not end the outer color.
pub open spec fn restyle(text: Seq<char>, style: Seq<char>) -> Seq<char> {
    join(split(text, ansi_reset()), ansi_reset() + style)
}

/// `g` renders `text` in the rendition `codes`: the text alone (colors
/// off), or the rendition, the text with the rendition restored after each
/// inner reset, and a reset (colors on). Either way, stripped of escapes it
/// reads as `text` does, and it leaves no escape open that `text` closed.
pub open spec fn painted(g: Seq<char>, text: Seq<char>, codes: Seq<char>) -> bool {
    &&& g == text || g == sgr(codes) + restyle(text, sgr(codes)) + ansi_reset()
    &&& strip_ansi(g) == strip_ansi(text)
    &&& escapes_closed(text) ==> escapes_closed(g)
}

/// `g` renders `text` as a badge in the rendition `codes`, centered in
/// `width` columns: the centered text (colors off), or the rendition, the
/// centered text (with the rendition restored after each inner reset), and
/// a reset (colors on). When `text` is plain, stripped of escapes it reads
/// as the centered text and leaves no escape open.
pub open spec fn badge(g: Seq<char>, text: Seq<char>, width: nat, codes: Seq<char>) -> bool {
    &&& g == center(width, text) || g == sgr(codes) + center(width, restyle(text, sgr(codes)))
        + ansi_reset()
    &&& plain(text) ==> strip_ansi(g) == center(width, text) && escapes_closed(g)
}

/// Renders `text` with `format!("{:^width$}", text.on_blue().white().bold())`.
/// Claimed (`badge` with rendition `1;44;37`: bold, blue background, white
/// text): colored writes the padded text alone when colors are off, and
/// otherwise its style (`compute_style`: style, background, foreground), the
/// text with the style re-inserted after each inner reset
/// (`escape_inner_reset_sequences`) padded by `str`'s `Display`, and a reset.
/// Whether colors are on is read from `colored::control::SHOULD_COLORIZE`
/// during the call; the claim takes that choice as fixed for the call (this
/// program never changes it with `set_override`).
#[verifier::external_body]
pub(crate) fn badge_blue(text: &str, width: usize) -> (r: String)
    ensures
        badge(r@, text@, width as nat, "1;44;37"@),
{
    format!("{:^width$}", text.on_blue().white().bold(), width = width)
}

/// Renders `text` with `format!("{:^width$}", text.on_bright_cyan().white().bold())`;
/// claimed as for `badge_blue`, with rendition `1;106;37`.
#[verifier::external_body]
pub(crate) fn badge_bright_cyan(text: &str, width: usize) -> (r: String)
    ensures
        badge(r@, text@, width as nat, "1;106;37"@),
{
    format!("{:^width$}", text.on_bright_cyan().white().bold(), width = width)
}

/// Renders `text` with `format!("{:^width$}", text.on_yellow().black().bold())`;
/// claimed as for `badge_blue`, with rendition `1;43;30`.
#[verifier::external_body]
pub(crate) fn badge_yellow(text: &str, width: usize) -> (r: String)
    ensures
        badge(r@, text@, width as nat, "1;43;30"@),
{
    format!("{:^width$}", text.on_yellow().black().bold(), width = width)
}

/// Renders `text` with `format!("{:^width$}", text.on_purple().white().bold())`;
/// claimed as for `badge_blue`, with rendition `1;45;37` (purple is magenta).
#[verifier::external_body]
pub(crate) fn badge_purple(text: &str, width: usize) -> (r: String)
    ensures
        badge(r@, text@, width as nat, "1;45;37"@),
{
    format!("{:^width$}", text.on_purple().white().bold(), width = width)
}

/// Renders `text` with `format!("{:^width$}", text.on_red().white().bold())`;
/// claimed as for `badge_blue`, with rendition `1;41;37`.
#[verifier::external_body]
pub(crate) fn badge_red(text: &str, width: usize) -> (r: String)
    ensures
        badge(r@, text@, width as nat, "1;41;37"@),
{
    format!("{:^width$}", text.on_red().white().bold(), width = width)
}

/// Renders `text` with `format!("{}", text.bold())`. Claimed (`painted` with
/// rendition `1`): colored writes the text alone when colors are off, and
/// otherwise its style, the text with the style restored after each inner
/// reset, and a reset; so stripping the escapes gives what stripping `text`
/// gives, and an escape left open in `text` is closed by the reset. As for
/// `badge_blue`, the choice of colors is taken as fixed for the call.
#[verifier::external_body]
pub(crate) fn paint_bold(text: &str) -> (r: String)
    ensures
        painted(r@, text@, "1"@),
{
    format!("{}", text.bold())
}

/// Renders `text` with `format!("{}", text.green())`; claimed as for
/// `paint_bold`, with rendition `32`.
#[verifier::external_body]
pub(crate) fn paint_green(text: &str) -> (r: String)
    ensures
        painted(r@, text@, "32"@),
{
    format!("{}", text.green())
}

/// Renders `text` with `format!("{}", text.red())`; claimed as for
/// `paint_bold`, with rendition `31`.
#[verifier::external_body]
pub(crate) fn paint_red(text: &str) -> (r: String)
    ensures
        painted(r@, text@, "31"@),
{
    format!("{}", text.red())
}

/// Text without escape characters is left as it is by stripping.
pub proof fn law_strip_keeps_plain_text(s: Seq<char>)
    requires
        plain(s),
    ensures
        strip_ansi(s) == s,
    decreases s.len(),
{
    if s.len() > 0 {
        assert(s[0] != esc());
        assert(plain(s.drop_first())) by {
            assert forall|i: int| 0 <= i < s.drop_first().len() implies s.drop_first()[i] != esc() by {
                assert(s.drop_first()[i] == s[i + 1]);
            }
        }
        law_strip_keeps_plain_text(s.drop_first());
        assert(seq![s[0]] + s.drop_first() =~= s);
    }
}

/// What stripping leaves holds no escape character.
pub proof fn law_stripped_is_plain(s: Seq<char>)
    ensures
        plain(strip_ansi(s)),
    decreases s.len(),
{
    if s.len() > 0 {
        if s[0] == esc() {
            match crate::text::index_of(s.drop_first(), 'm') {
                Some(j) => if 0 <= j < s.len() - 1 {
                    law_stripped_is_plain(s.subrange(j + 2, s.len() as int));
                },
                None => {},
            }
        } else {
            law_stripped_is_plain(s.drop_first());
            let r = strip_ansi(s.drop_first());
            assert forall|i: int| 0 <= i < strip_ansi(s).len() implies strip_ansi(s)[i] != esc() by {
                if i > 0 {
                    assert(strip_ansi(s)[i] == r[i - 1]);
                }
            }
        }
    }
}

/// Stripping twice strips no more than once.
pub proof fn law_strip_idempotent(s: Seq<char>)
    ensures
        strip_ansi(strip_ansi(s)) == strip_ansi(s),
{
    law_stripped_is_plain(s);
    law_strip_keeps_plain_text(strip_ansi(s));
}

/// Text that leaves no escape open is stripped on its own: stripping it
/// together with what follows is stripping each and joining the results.
pub proof fn law_strip_closed_prefix(a: Seq<char>, b: Seq<char>)
    requires
        escapes_closed(a),
    ensures
        strip_ansi(a + b) == strip_ansi(a) + strip_ansi(b),
    decreases a.len(),
{
    if a.len() == 0 {
        assert(a + b =~= b);
    } else {
        let ab = a + b;
        assert(ab[0] == a[0]);
        assert(ab.drop_first() =~= a.drop_first() + b);
        if a[0] == esc() {
            let j = crate::text::index_of(a.drop_first(), 'm')->0;
            crate::text::lemma_find_from_prefix(a.drop_first(), b, seq!['m'], 0);
            crate::text::lemma_find_from(a.drop_first(), seq!['m'], 0);
            assert(ab.subrange(j + 2, ab.len() as int) =~= a.subrange(j + 2, a.len() as int) + b);
            law_strip_closed_prefix(a.subrange(j + 2, a.len() as int), b);
        } else {
            law_strip_closed_prefix(a.drop_first(), b);
            assert(strip_ansi(ab) =~= strip_ansi(a) + strip_ansi(b));
        }
    }
}

} // verus!
