//! Commentary text: `<b>`, `<i>`, `<u>` and color `<span>` tags, suit escapes
//! and card references, line breaks.
use vstd::prelude::*;

use super::escapes::{
    bbo_to_backslash, bbo_to_backslash_chars, escape_suit, escape_suit_exec,
    lemma_close_after_open, strip_empty_italics, strip_empty_italics_chars, suit_escapes,
    suit_escapes_chars,
};
use crate::model::card::{rank_of_char, Rank};
use crate::model::commentary::{CommentaryBlock, FormattedText, SpanV, TextSpan};
use crate::num::parse_unsigned_spec;
use crate::text::{
    ascii, contains, contains_chars, ends_with, ends_with_chars, find, find_at, is_hex_digit,
    lemma_find_bounds, lower, rfind, rfind_char, slice_of, starts_at, starts_with, to_lower,
    trim_start, trim_start_chars,
};

verus! {

pub open spec fn tag_open(t: char) -> Seq<char> {
    seq!['<', t, '>']
}

pub open spec fn tag_close(t: char) -> Seq<char> {
    seq!['<', '/', t, '>']
}

pub open spec fn span_start() -> Seq<char> {
    seq!['<', 's', 'p', 'a', 'n']
}

pub open spec fn span_close() -> Seq<char> {
    seq!['<', '/', 's', 'p', 'a', 'n', '>']
}

pub open spec fn color_key() -> Seq<char> {
    seq!['c', 'o', 'l', 'o', 'r', ':']
}

/// The leading run of hex digits in `s`.
pub open spec fn hex_prefix(s: Seq<char>) -> Seq<char>
    decreases s.len(),
{
    if s.len() == 0 || !is_hex_digit(s[0]) {
        seq![]
    } else {
        seq![s[0]] + hex_prefix(s.drop_first())
    }
}

/// One color channel read from two characters as `u8::from_str_radix(_, 16)`.
pub open spec fn channel(a: char, b: char) -> Option<u8> {
    match parse_unsigned_spec(seq![a, b], 16, 255) {
        Some(v) => Some(v as u8),
        None => None,
    }
}

/// A CSS hex color, `RGB` (each digit doubled) or `RRGGBB`, the `#` already
/// gone.
pub open spec fn hex_color(h: Seq<char>) -> Option<(u8, u8, u8)> {
    if h.len() == 3 {
        match (channel(h[0], h[0]), channel(h[1], h[1]), channel(h[2], h[2])) {
            (Some(r), Some(g), Some(b)) => Some((r, g, b)),
            _ => None,
        }
    } else if h.len() == 6 {
        match (channel(h[0], h[1]), channel(h[2], h[3]), channel(h[4], h[5])) {
            (Some(r), Some(g), Some(b)) => Some((r, g, b)),
            _ => None,
        }
    } else {
        None
    }
}

/// A `<span ... color:HEX ...>` opening tag at the start of `r`: its color and
/// the length of the tag, closing `>` included.
pub open spec fn span_open(r: Seq<char>) -> Option<((u8, u8, u8), int)> {
    if !starts_with(r, span_start()) {
        None
    } else {
        match find(r, seq!['>']) {
            None => None,
            Some(close) => {
                let tag = r.take(close);
                match find(lower(tag), color_key()) {
                    None => None,
                    Some(ci) => {
                        let tr = trim_start(tag.skip(ci + 6));
                        let hex = if tr.len() > 0 && tr[0] == '#' {
                            tr.drop_first()
                        } else {
                            tr
                        };
                        match hex_color(hex_prefix(hex)) {
                            None => None,
                            Some(rgb) => Some((rgb, close + 1)),
                        }
                    },
                }
            },
        }
    }
}

/// The spans an italic run with `<b>` or `<u>` tags inside reads as: italic
/// text, with each tagged part bold-italic (`b`) or underlined (`u`). An
/// unclosed tag leaves the rest italic.
pub open spec fn nested_spans(c: Seq<char>, t: char) -> Seq<SpanV>
    decreases c.len(),
{
    match find(c, tag_open(t)) {
        None => if c.len() == 0 {
            seq![]
        } else {
            seq![SpanV::Italic(suit_escapes(c))]
        },
        Some(b) => {
            proof {
                lemma_find_bounds(c, tag_open(t));
            }
            let pre = if b == 0 {
                seq![]
            } else {
                seq![SpanV::Italic(suit_escapes(c.take(b)))]
            };
            let after = c.skip(b + 3);
            match find(after, tag_close(t)) {
                Some(e) => {
                    proof {
                        lemma_find_bounds(after, tag_close(t));
                    }
                    let inner = suit_escapes(after.take(e));
                    let span = if t == 'b' {
                        SpanV::BoldItalic(inner)
                    } else {
                        SpanV::Underline(inner)
                    };
                    pre + seq![span] + nested_spans(after.skip(e + 4), t)
                },
                None => pre + seq![SpanV::Italic(suit_escapes(c.skip(b)))],
            }
        },
    }
}

/// The spans an italic run with color `<span>` tags inside reads as.
pub open spec fn nested_color_spans(c: Seq<char>) -> Seq<SpanV>
    decreases c.len(),
{
    match find(c, span_start()) {
        None => if c.len() == 0 {
            seq![]
        } else {
            seq![SpanV::Italic(suit_escapes(c))]
        },
        Some(k) => {
            proof {
                lemma_find_bounds(c, span_start());
            }
            let pre = if k == 0 {
                seq![]
            } else {
                seq![SpanV::Italic(suit_escapes(c.take(k)))]
            };
            let after = c.skip(k);
            match span_open(after) {
                None => pre + seq![SpanV::Italic(suit_escapes(after))],
                Some((rgb, ol)) => {
                    proof {
                        lemma_span_open_bounds(after);
                    }
                    let br = after.skip(ol);
                    match find(br, span_close()) {
                        Some(e) => {
                            proof {
                                lemma_find_bounds(br, span_close());
                            }
                            pre + seq![
                                SpanV::Colored {
                                    text: suit_escapes(br.take(e)),
                                    italic: true,
                                    rgb,
                                },
                            ] + nested_color_spans(br.skip(e + 7))
                        },
                        None => pre + seq![
                            SpanV::Colored { text: suit_escapes(br), italic: true, rgb },
                        ],
                    }
                },
            }
        },
    }
}

/// The spans the content of an `<i>` tag reads as.
pub open spec fn italic_spans(c: Seq<char>) -> Seq<SpanV> {
    if starts_with(c, tag_open('b')) && ends_with(c, tag_close('b')) && c.len() >= 7 {
        seq![SpanV::BoldItalic(suit_escapes(c.subrange(3, c.len() - 4)))]
    } else if contains(c, tag_open('b')) {
        nested_spans(c, 'b')
    } else if contains(c, tag_open('u')) {
        nested_spans(c, 'u')
    } else if contains(c, span_start()) {
        nested_color_spans(c)
    } else {
        seq![SpanV::Italic(suit_escapes(c))]
    }
}

/// The span the content of a `<b>` tag reads as.
pub open spec fn bold_span(c: Seq<char>) -> SpanV {
    if starts_with(c, tag_open('i')) && ends_with(c, tag_close('i')) && c.len() >= 7 {
        SpanV::BoldItalic(suit_escapes(c.subrange(3, c.len() - 4)))
    } else {
        SpanV::Bold(suit_escapes(c))
    }
}

/// What parsing commentary comes to.
pub enum Parsed {
    /// The spans the text reads as.
    Spans(Seq<SpanV>),
    /// A `<b>`, `<i>` or `<u>` tag (named by its letter) is never closed.
    Unclosed(char),
}

pub open spec fn then(pre: Seq<SpanV>, r: Parsed) -> Parsed {
    match r {
        Parsed::Spans(x) => Parsed::Spans(pre + x),
        Parsed::Unclosed(t) => Parsed::Unclosed(t),
    }
}

/// The pending plain text as a span, if there is any.
pub open spec fn flush(buf: Seq<char>) -> Seq<SpanV> {
    if buf.len() == 0 {
        seq![]
    } else {
        seq![SpanV::Plain(buf)]
    }
}

/// A single line break reads as a space, unless one was just written.
pub open spec fn soft_break(buf: Seq<char>) -> Seq<char> {
    if buf.len() == 0 || buf.last() != ' ' {
        buf.push(' ')
    } else {
        buf
    }
}

/// Parse `rem`, with the plain text `buf` not yet written out.
pub open spec fn parse_rest(rem: Seq<char>, buf: Seq<char>) -> Parsed
    decreases rem.len(),
{
    if rem.len() == 0 {
        Parsed::Spans(flush(buf))
    } else if starts_with(rem, tag_open('b')) {
        match find(rem, tag_close('b')) {
            None => Parsed::Unclosed('b'),
            Some(end) => {
                proof {
                    lemma_close_after_open(rem, 'b', tag_close('b'));
                }
                then(
                    flush(buf).push(bold_span(rem.subrange(3, end))),
                    parse_rest(rem.skip(end + 4), seq![]),
                )
            },
        }
    } else if starts_with(rem, tag_open('i')) {
        match find(rem, tag_close('i')) {
            None => Parsed::Unclosed('i'),
            Some(end) => {
                proof {
                    lemma_close_after_open(rem, 'i', tag_close('i'));
                }
                then(
                    flush(buf) + italic_spans(rem.subrange(3, end)),
                    parse_rest(rem.skip(end + 4), seq![]),
                )
            },
        }
    } else if starts_with(rem, tag_open('u')) {
        match find(rem, tag_close('u')) {
            None => Parsed::Unclosed('u'),
            Some(end) => {
                proof {
                    lemma_close_after_open(rem, 'u', tag_close('u'));
                }
                then(
                    flush(buf).push(SpanV::Underline(suit_escapes(rem.subrange(3, end)))),
                    parse_rest(rem.skip(end + 4), seq![]),
                )
            },
        }
    } else if starts_with(rem, span_start()) {
        match span_open(rem) {
            Some((rgb, ol)) => {
                proof {
                    lemma_span_open_bounds(rem);
                }
                let br = rem.skip(ol);
                match find(br, span_close()) {
                    Some(e) => {
                        proof {
                            lemma_find_bounds(br, span_close());
                        }
                        then(
                            flush(buf).push(
                                SpanV::Colored { text: suit_escapes(br.take(e)), italic: false, rgb },
                            ),
                            parse_rest(br.skip(e + 7), seq![]),
                        )
                    },
                    None => Parsed::Spans(
                        flush(buf).push(
                            SpanV::Colored { text: suit_escapes(br), italic: false, rgb },
                        ),
                    ),
                }
            },
            None => parse_rest(rem.drop_first(), buf.push(rem[0])),
        }
    } else if rem[0] == '\\' && rem.len() >= 2 {
        let n = rem[1];
        match escape_suit(n) {
            Some(suit) => if rem.len() >= 3 && rank_of_char(rem[2]) is Some {
                then(
                    flush(buf).push(SpanV::CardRef { suit, rank: rank_of_char(rem[2]).unwrap() }),
                    parse_rest(rem.skip(3), seq![]),
                )
            } else {
                then(flush(buf).push(SpanV::SuitSymbol(suit)), parse_rest(rem.skip(2), seq![]))
            },
            None => if n == 'n' {
                then(flush(buf).push(SpanV::LineBreak), parse_rest(rem.skip(2), seq![]))
            } else {
                parse_rest(rem.skip(2), buf + seq!['\\', n])
            },
        }
    } else if starts_with(rem, seq!['\n', '\n']) {
        then(flush(buf) + seq![SpanV::LineBreak, SpanV::LineBreak], parse_rest(rem.skip(2), seq![]))
    } else if starts_with(rem, seq!['\r', '\n', '\r', '\n']) {
        then(flush(buf) + seq![SpanV::LineBreak, SpanV::LineBreak], parse_rest(rem.skip(4), seq![]))
    } else if rem[0] == '\n' {
        parse_rest(rem.skip(1), soft_break(buf))
    } else if starts_with(rem, seq!['\r', '\n']) {
        parse_rest(rem.skip(2), soft_break(buf))
    } else {
        parse_rest(rem.drop_first(), buf.push(rem[0]))
    }
}

/// The text commentary is parsed from: empty italics stripped, then BBO's
/// `!S` suit escapes rewritten as `\S`.
pub open spec fn prepared(input: Seq<char>) -> Seq<char> {
    bbo_to_backslash(strip_empty_italics(input))
}

/// What a commentary text reads as.
pub open spec fn parsed_commentary(input: Seq<char>) -> Parsed {
    parse_rest(prepared(input), seq![])
}

/// The error text for a tag left open.
pub open spec fn unclosed_message(t: char) -> Seq<char> {
    if t == 'b' {
        "Unclosed <b> tag"@
    } else if t == 'i' {
        "Unclosed <i> tag"@
    } else {
        "Unclosed <u> tag"@
    }
}

pub proof fn lemma_span_open_bounds(r: Seq<char>)
    requires
        span_open(r) is Some,
    ensures
        1 <= span_open(r).unwrap().1 <= r.len(),
{
    lemma_find_bounds(r, seq!['>']);
}

/// Parse formatted text.
pub fn parse_formatted_text(input: &str) -> (res: Result<FormattedText, String>)
    ensures
        match parsed_commentary(input@) {
            Parsed::Spans(s) => res matches Ok(t) && t@ == s,
            Parsed::Unclosed(t) => res matches Err(m) && m@ == unclosed_message(t),
        },
{
    let cs = crate::text::chars_of(input);
    let stripped = strip_empty_italics_chars(&cs);
    let s = bbo_to_backslash_chars(&stripped);
    read_chars(&s)
}

fn unclosed_error(t: char) -> (m: String)
    ensures
        m@ == unclosed_message(t),
{
    if t == 'b' {
        "Unclosed <b> tag".to_string()
    } else if t == 'i' {
        "Unclosed <i> tag".to_string()
    } else {
        "Unclosed <u> tag".to_string()
    }
}

/// Write the pending plain text out as a span.
fn flush_buf(text: &mut FormattedText, buf: &mut Vec<char>)
    ensures
        final(text)@ == old(text)@ + flush(old(buf)@),
        final(buf)@ == Seq::<char>::empty(),
{
    if buf.len() > 0 {
        let b = crate::text::string_of(buf);
        text.push(TextSpan::plain(b));
        *buf = Vec::new();
        assert(text@ =~= old(text)@ + flush(old(buf)@));
    } else {
        assert(text@ =~= old(text)@ + flush(old(buf)@));
    }
}

/// A `String` of [`suit_escapes`] on `s`.
fn escaped(s: &[char]) -> (r: String)
    ensures
        r@ == suit_escapes(s@),
{
    let v = suit_escapes_chars(s);
    crate::text::string_of(&v)
}

/// The spans of `c` by [`nested_spans`], written out.
fn push_nested(text: &mut FormattedText, c: &[char], t: char)
    requires
        t == 'b' || t == 'u',
    ensures
        final(text)@ == old(text)@ + nested_spans(c@, t),
{
    let open = ['<', t, '>'];
    let close = ['<', '/', t, '>'];
    assert(open@ =~= tag_open(t));
    assert(close@ =~= tag_close(t));
    let mut rest = slice_of(c, 0, c.len());
    assert(rest@ =~= c@);
    loop
        invariant
            open@ == tag_open(t),
            close@ == tag_close(t),
            old(text)@ + nested_spans(c@, t) == text@ + nested_spans(rest@, t),
        decreases rest@.len(),
    {
        assert(rest@.skip(0) =~= rest@);
        match find_at(&rest, 0, &open) {
            None => {
                if rest.len() > 0 {
                    text.push(TextSpan::italic(escaped(&rest)));
                }
                assert(text@ =~= old(text)@ + nested_spans(c@, t));
                return ;
            },
            Some(b) => {
                proof {
                    lemma_find_bounds(rest@, tag_open(t));
                }
                if b > 0 {
                    let before = slice_of(&rest, 0, b);
                    assert(before@ =~= rest@.take(b as int));
                    text.push(TextSpan::italic(escaped(&before)));
                }
                let after = slice_of(&rest, b + 3, rest.len());
                assert(after@ =~= rest@.skip(b + 3));
                assert(after@.skip(0) =~= after@);
                match find_at(&after, 0, &close) {
                    Some(e) => {
                        proof {
                            lemma_find_bounds(after@, tag_close(t));
                        }
                        let inner_chars = slice_of(&after, 0, e);
                        assert(inner_chars@ =~= after@.take(e as int));
                        let inner = escaped(&inner_chars);
                        if t == 'b' {
                            text.push(TextSpan::bold_italic(inner));
                        } else {
                            text.push(TextSpan::underline(inner));
                        }
                        let next = slice_of(&after, e + 4, after.len());
                        assert(next@ =~= after@.skip(e + 4));
                        rest = next;
                    },
                    None => {
                        let tail = slice_of(&rest, b, rest.len());
                        assert(tail@ =~= rest@.skip(b as int));
                        text.push(TextSpan::italic(escaped(&tail)));
                        assert(text@ =~= old(text)@ + nested_spans(c@, t));
                        return ;
                    },
                }
            },
        }
    }
}

/// The spans of `c` by [`nested_color_spans`], written out.
#[verifier::rlimit(40)]
fn push_nested_color(text: &mut FormattedText, c: &[char])
    ensures
        final(text)@ == old(text)@ + nested_color_spans(c@),
{
    let open = ['<', 's', 'p', 'a', 'n'];
    let close = ['<', '/', 's', 'p', 'a', 'n', '>'];
    assert(open@ =~= span_start());
    assert(close@ =~= span_close());
    let mut rest = slice_of(c, 0, c.len());
    assert(rest@ =~= c@);
    loop
        invariant
            open@ == span_start(),
            close@ == span_close(),
            old(text)@ + nested_color_spans(c@) == text@ + nested_color_spans(rest@),
        decreases rest@.len(),
    {
        assert(rest@.skip(0) =~= rest@);
        match find_at(&rest, 0, &open) {
            None => {
                if rest.len() > 0 {
                    text.push(TextSpan::italic(escaped(&rest)));
                }
                assert(text@ =~= old(text)@ + nested_color_spans(c@));
                return ;
            },
            Some(k) => {
                proof {
                    lemma_find_bounds(rest@, span_start());
                }
                if k > 0 {
                    let before = slice_of(&rest, 0, k);
                    assert(before@ =~= rest@.take(k as int));
                    text.push(TextSpan::italic(escaped(&before)));
                }
                let after = slice_of(&rest, k, rest.len());
                assert(after@ =~= rest@.skip(k as int));
                match parse_span_open(&after) {
                    None => {
                        text.push(TextSpan::italic(escaped(&after)));
                        assert(text@ =~= old(text)@ + nested_color_spans(c@));
                        return ;
                    },
                    Some((rgb, ol)) => {
                        proof {
                            lemma_span_open_bounds(after@);
                        }
                        let br = slice_of(&after, ol, after.len());
                        assert(br@ =~= after@.skip(ol as int));
                        assert(br@.skip(0) =~= br@);
                        match find_at(&br, 0, &close) {
                            Some(e) => {
                                proof {
                                    lemma_find_bounds(br@, span_close());
                                }
                                let body = slice_of(&br, 0, e);
                                assert(body@ =~= br@.take(e as int));
                                text.push(TextSpan::italic_colored(escaped(&body), rgb));
                                let next = slice_of(&br, e + 7, br.len());
                                assert(next@ =~= br@.skip(e + 7));
                                rest = next;
                            },
                            None => {
                                text.push(TextSpan::italic_colored(escaped(&br), rgb));
                                assert(text@ =~= old(text)@ + nested_color_spans(c@));
                                return ;
                            },
                        }
                    },
                }
            },
        }
    }
}

/// Two hex characters as a color channel.
fn channel_exec(a: char, b: char) -> (r: Option<u8>)
    ensures
        r == channel(a, b),
{
    let pair = [a, b];
    assert(pair@ =~= seq![a, b]);
    match crate::num::parse_unsigned(&pair, 16, 255) {
        Some(v) => Some(v as u8),
        None => None,
    }
}

/// Parse a CSS-style hex color (`RGB` or `RRGGBB`, the `#` already stripped).
pub fn parse_hex_color(hex: &[char]) -> (r: Option<(u8, u8, u8)>)
    ensures
        r == hex_color(hex@),
{
    if hex.len() == 3 {
        match (channel_exec(hex[0], hex[0]), channel_exec(hex[1], hex[1]), channel_exec(hex[2], hex[2])) {
            (Some(r), Some(g), Some(b)) => Some((r, g, b)),
            _ => None,
        }
    } else if hex.len() == 6 {
        match (channel_exec(hex[0], hex[1]), channel_exec(hex[2], hex[3]), channel_exec(hex[4], hex[5])) {
            (Some(r), Some(g), Some(b)) => Some((r, g, b)),
            _ => None,
        }
    } else {
        None
    }
}

fn is_hex_char(c: char) -> (b: bool)
    ensures
        b == is_hex_digit(c),
{
    ('0' <= c && c <= '9') || ('a' <= c && c <= 'f') || ('A' <= c && c <= 'F')
}

fn hex_prefix_chars(s: &[char]) -> (r: Vec<char>)
    ensures
        r@ == hex_prefix(s@),
{
    let mut i: usize = 0;
    assert(s@.skip(0) =~= s@);
    while i < s.len() && is_hex_char(s[i])
        invariant
            i <= s@.len(),
            hex_prefix(s@) == s@.take(i as int) + hex_prefix(s@.skip(i as int)),
        decreases s.len() - i,
    {
        assert(s@.skip(i as int).drop_first() =~= s@.skip(i + 1));
        assert(s@.take(i as int) + seq![s@[i as int]] =~= s@.take(i + 1));
        i += 1;
    }
    assert(hex_prefix(s@.skip(i as int)) =~= seq![]);
    assert(s@.take(i as int) + seq![] =~= s@.take(i as int));
    slice_of(s, 0, i)
}

/// Parse a `<span style=color:HEX>` opening tag at the start of `r`: its color
/// and the length of the tag.
pub fn parse_span_open(r: &[char]) -> (res: Option<((u8, u8, u8), usize)>)
    ensures
        match span_open(r@) {
            Some((rgb, n)) => res == Some((rgb, n as usize)),
            None => res is None,
        },
{
    let open = ['<', 's', 'p', 'a', 'n'];
    assert(open@ =~= span_start());
    assert(r@.skip(0) =~= r@);
    if !starts_at(r, 0, &open) {
        return None;
    }
    let gt = ['>'];
    assert(gt@ =~= seq!['>']);
    let close = match find_at(r, 0, &gt) {
        Some(k) => k,
        None => {
            return None;
        },
    };
    proof {
        lemma_find_bounds(r@, seq!['>']);
    }
    let tag = slice_of(r, 0, close);
    assert(tag@ =~= r@.take(close as int));
    let low = to_lower(&tag);
    let key = ['c', 'o', 'l', 'o', 'r', ':'];
    assert(key@ =~= color_key());
    assert(low@.skip(0) =~= low@);
    let ci = match find_at(&low, 0, &key) {
        Some(k) => k,
        None => {
            return None;
        },
    };
    proof {
        lemma_find_bounds(low@, color_key());
    }
    let after = slice_of(&tag, ci + 6, tag.len());
    assert(after@ =~= tag@.skip(ci + 6));
    let tr = trim_start_chars(&after);
    let hex = if tr.len() > 0 && tr[0] == '#' {
        slice_of(&tr, 1, tr.len())
    } else {
        slice_of(&tr, 0, tr.len())
    };
    assert(tr.len() > 0 && tr@[0] == '#' ==> hex@ =~= tr@.drop_first());
    assert(!(tr.len() > 0 && tr@[0] == '#') ==> hex@ =~= tr@);
    let digits = hex_prefix_chars(&hex);
    match parse_hex_color(&digits) {
        None => None,
        Some(rgb) => Some((rgb, close + 1)),
    }
}

/// What one step of the reader did.
enum Step {
    /// Read up to the given position.
    Next(usize),
    /// Read to the end.
    Finished,
    /// Found a tag that is never closed.
    Failed(char),
}

/// One step from `pos` took `(t0, b0)` to `(t1, b1)` as the parse defines.
spec fn stepped(s: Seq<char>, pos: int, t0: Seq<SpanV>, b0: Seq<char>, r: Step, t1: Seq<SpanV>, b1: Seq<char>) -> bool {
    match r {
        Step::Next(np) => pos < np <= s.len() && then(t0, parse_rest(s.skip(pos), b0)) == then(
            t1,
            parse_rest(s.skip(np as int), b1),
        ),
        Step::Finished => then(t0, parse_rest(s.skip(pos), b0)) == Parsed::Spans(t1),
        Step::Failed(c) => parse_rest(s.skip(pos), b0) == Parsed::Unclosed(c),
    }
}

/// The patterns the reader looks for.
struct Pats {
    ob: [char; 3],
    cb: [char; 4],
    oi: [char; 3],
    ci: [char; 4],
    ou: [char; 3],
    cu: [char; 4],
    osp: [char; 5],
    csp: [char; 7],
    nn: [char; 2],
    rnrn: [char; 4],
    rn: [char; 2],
}

spec fn pats_ok(p: Pats) -> bool {
    &&& p.ob@ == tag_open('b')
    &&& p.cb@ == tag_close('b')
    &&& p.oi@ == tag_open('i')
    &&& p.ci@ == tag_close('i')
    &&& p.ou@ == tag_open('u')
    &&& p.cu@ == tag_close('u')
    &&& p.osp@ == span_start()
    &&& p.csp@ == span_close()
    &&& p.nn@ == seq!['\n', '\n']
    &&& p.rnrn@ == seq!['\r', '\n', '\r', '\n']
    &&& p.rn@ == seq!['\r', '\n']
}

fn pats() -> (p: Pats)
    ensures
        pats_ok(p),
{
    let p = Pats {
        ob: ['<', 'b', '>'],
        cb: ['<', '/', 'b', '>'],
        oi: ['<', 'i', '>'],
        ci: ['<', '/', 'i', '>'],
        ou: ['<', 'u', '>'],
        cu: ['<', '/', 'u', '>'],
        osp: ['<', 's', 'p', 'a', 'n'],
        csp: ['<', '/', 's', 'p', 'a', 'n', '>'],
        nn: ['\n', '\n'],
        rnrn: ['\r', '\n', '\r', '\n'],
        rn: ['\r', '\n'],
    };
    assert(p.ob@ =~= tag_open('b'));
    assert(p.cb@ =~= tag_close('b'));
    assert(p.oi@ =~= tag_open('i'));
    assert(p.ci@ =~= tag_close('i'));
    assert(p.ou@ =~= tag_open('u'));
    assert(p.cu@ =~= tag_close('u'));
    assert(p.osp@ =~= span_start());
    assert(p.csp@ =~= span_close());
    assert(p.nn@ =~= seq!['\n', '\n']);
    assert(p.rnrn@ =~= seq!['\r', '\n', '\r', '\n']);
    assert(p.rn@ =~= seq!['\r', '\n']);
    p
}

/// A `<b>`, `<i>` or `<u>` tag at `pos`.
fn step_tag(s: &[char], pos: usize, t: char, p: &Pats, text: &mut FormattedText, buf: &mut Vec<char>) -> (r: Step)
    requires
        pats_ok(*p),
        pos < s@.len(),
        t == 'b' || t == 'i' || t == 'u',
        starts_with(s@.skip(pos as int), tag_open(t)),
        t != 'b' ==> !starts_with(s@.skip(pos as int), tag_open('b')),
        t == 'u' ==> !starts_with(s@.skip(pos as int), tag_open('i')),
    ensures
        stepped(s@, pos as int, old(text)@, old(buf)@, r, final(text)@, final(buf)@),
{
    let ghost rem = s@.skip(pos as int);
    let ghost t0 = text@;
    let ghost b0 = buf@;
    flush_buf(text, buf);
    let close: &[char] = if t == 'b' {
        &p.cb
    } else if t == 'i' {
        &p.ci
    } else {
        &p.cu
    };
    let end = match find_at(s, pos, close) {
        Some(e) => e,
        None => {
            return Step::Failed(t);
        },
    };
    proof {
        lemma_close_after_open(rem, t, tag_close(t));
    }
    let content = slice_of(s, pos + 3, pos + end);
    assert(content@ =~= rem.subrange(3, end as int));
    let ghost mid: Seq<SpanV>;
    if t == 'b' {
        let span = bold_span_exec(&content, &p.oi, &p.ci);
        text.push(span);
        proof {
            mid = flush(b0).push(bold_span(rem.subrange(3, end as int)));
        }
    } else if t == 'i' {
        push_italic(text, &content, &p.ob, &p.cb, &p.ou, &p.osp);
        proof {
            mid = flush(b0) + italic_spans(rem.subrange(3, end as int));
        }
    } else {
        text.push(TextSpan::underline(escaped(&content)));
        proof {
            mid = flush(b0).push(SpanV::Underline(suit_escapes(rem.subrange(3, end as int))));
        }
    }
    proof {
        assert(rem.skip(end + 4) =~= s@.skip(pos + end + 4));
        assert(text@ =~= t0 + mid);
        lemma_then_assoc(t0, mid, parse_rest(rem.skip(end + 4), seq![]));
    }
    Step::Next(pos + end + 4)
}

/// A `<span` at `pos`.
#[verifier::rlimit(40)]
fn step_span(s: &[char], pos: usize, p: &Pats, text: &mut FormattedText, buf: &mut Vec<char>) -> (r: Step)
    requires
        pats_ok(*p),
        pos < s@.len(),
        starts_with(s@.skip(pos as int), span_start()),
        !starts_with(s@.skip(pos as int), tag_open('b')),
        !starts_with(s@.skip(pos as int), tag_open('i')),
        !starts_with(s@.skip(pos as int), tag_open('u')),
    ensures
        stepped(s@, pos as int, old(text)@, old(buf)@, r, final(text)@, final(buf)@),
{
    let ghost rem = s@.skip(pos as int);
    let ghost t0 = text@;
    let ghost b0 = buf@;
    let tail = slice_of(s, pos, s.len());
    assert(tail@ =~= rem);
    match parse_span_open(&tail) {
        Some((rgb, ol)) => {
            proof {
                lemma_span_open_bounds(rem);
            }
            flush_buf(text, buf);
            let br = slice_of(s, pos + ol, s.len());
            assert(br@ =~= rem.skip(ol as int));
            assert(br@.skip(0) =~= br@);
            match find_at(&br, 0, &p.csp) {
                Some(e) => {
                    proof {
                        lemma_find_bounds(br@, span_close());
                    }
                    let body = slice_of(&br, 0, e);
                    assert(body@ =~= br@.take(e as int));
                    text.push(TextSpan::colored(escaped(&body), rgb));
                    proof {
                        assert(br@.skip(e + 7) =~= s@.skip(pos + ol + e + 7));
                        let sp = SpanV::Colored {
                            text: suit_escapes(br@.take(e as int)),
                            italic: false,
                            rgb,
                        };
                        assert(text@ =~= t0 + flush(b0).push(sp));
                        lemma_then_assoc(t0, flush(b0).push(sp), parse_rest(br@.skip(e + 7), seq![]));
                    }
                    Step::Next(pos + ol + e + 7)
                },
                None => {
                    text.push(TextSpan::colored(escaped(&br), rgb));
                    proof {
                        let sp = SpanV::Colored { text: suit_escapes(br@), italic: false, rgb };
                        assert(text@ =~= t0 + flush(b0).push(sp));
                    }
                    Step::Finished
                },
            }
        },
        None => {
            buf.push(s[pos]);
            assert(rem[0] == s@[pos as int]);
            assert(rem.drop_first() =~= s@.skip(pos + 1));
            Step::Next(pos + 1)
        },
    }
}

/// A backslash escape at `pos`.
fn step_escape(s: &[char], pos: usize, text: &mut FormattedText, buf: &mut Vec<char>) -> (r: Step)
    requires
        pos + 1 < s.len(),
        s@[pos as int] == '\\',
    ensures
        stepped(s@, pos as int, old(text)@, old(buf)@, r, final(text)@, final(buf)@),
{
    let ghost rem = s@.skip(pos as int);
    let ghost t0 = text@;
    let ghost b0 = buf@;
    assert(rem[0] == '\\');
    proof {
        lemma_starts_first(rem, tag_open('b'));
        lemma_starts_first(rem, tag_open('i'));
        lemma_starts_first(rem, tag_open('u'));
        lemma_starts_first(rem, span_start());
    }
    let n = s[pos + 1];
    assert(rem[1] == n);
    match escape_suit_exec(n) {
        Some(suit) => {
            flush_buf(text, buf);
            let rank = if pos + 2 < s.len() {
                assert(rem[2] == s@[pos + 2]);
                Rank::from_char(s[pos + 2])
            } else {
                None
            };
            match rank {
                Some(rank) => {
                    text.push(TextSpan::CardRef { suit, rank });
                    proof {
                        let sp = SpanV::CardRef { suit, rank };
                        assert(rem.skip(3) =~= s@.skip(pos + 3));
                        assert(text@ =~= t0 + flush(b0).push(sp));
                        lemma_then_assoc(t0, flush(b0).push(sp), parse_rest(rem.skip(3), seq![]));
                    }
                    Step::Next(pos + 3)
                },
                None => {
                    text.push(TextSpan::SuitSymbol(suit));
                    proof {
                        let sp = SpanV::SuitSymbol(suit);
                        assert(rem.skip(2) =~= s@.skip(pos + 2));
                        assert(text@ =~= t0 + flush(b0).push(sp));
                        lemma_then_assoc(t0, flush(b0).push(sp), parse_rest(rem.skip(2), seq![]));
                    }
                    Step::Next(pos + 2)
                },
            }
        },
        None => {
            if n == 'n' {
                flush_buf(text, buf);
                text.push(TextSpan::LineBreak);
                proof {
                    let sp = SpanV::LineBreak;
                    assert(rem.skip(2) =~= s@.skip(pos + 2));
                    assert(text@ =~= t0 + flush(b0).push(sp));
                    lemma_then_assoc(t0, flush(b0).push(sp), parse_rest(rem.skip(2), seq![]));
                }
            } else {
                buf.push('\\');
                buf.push(n);
                assert(buf@ =~= b0 + seq!['\\', n]);
                assert(rem.skip(2) =~= s@.skip(pos + 2));
            }
            Step::Next(pos + 2)
        },
    }
}

proof fn lemma_starts_first(s: Seq<char>, p: Seq<char>)
    requires
        p.len() > 0,
    ensures
        starts_with(s, p) ==> s[0] == p[0],
{
    if starts_with(s, p) {
        assert(s.take(p.len() as int)[0] == s[0]);
    }
}

/// The conditions under which the reader is past every tag and escape.
spec fn plain_at(s: Seq<char>, pos: int) -> bool {
    &&& 0 <= pos < s.len()
    &&& !starts_with(s.skip(pos), tag_open('b'))
    &&& !starts_with(s.skip(pos), tag_open('i'))
    &&& !starts_with(s.skip(pos), tag_open('u'))
    &&& !starts_with(s.skip(pos), span_start())
    &&& !(s[pos] == '\\' && pos + 1 < s.len())
}

/// A paragraph break (a blank line) at `pos`.
fn step_paragraph(s: &[char], pos: usize, step: usize, text: &mut FormattedText, buf: &mut Vec<char>) -> (r: Step)
    requires
        plain_at(s@, pos as int),
        step == 2 && starts_with(s@.skip(pos as int), seq!['\n', '\n']) || step == 4
            && !starts_with(s@.skip(pos as int), seq!['\n', '\n']) && starts_with(
            s@.skip(pos as int),
            seq!['\r', '\n', '\r', '\n'],
        ),
    ensures
        stepped(s@, pos as int, old(text)@, old(buf)@, r, final(text)@, final(buf)@),
{
    let ghost rem = s@.skip(pos as int);
    let ghost t0 = text@;
    let ghost b0 = buf@;
    let len = s.len();
    assert(rem[0] == s@[pos as int]);
    assert(pos + step <= len);
    flush_buf(text, buf);
    text.push(TextSpan::LineBreak);
    text.push(TextSpan::LineBreak);
    proof {
        assert(rem.skip(step as int) =~= s@.skip(pos + step));
        let sp = seq![SpanV::LineBreak, SpanV::LineBreak];
        assert(text@ =~= t0 + (flush(b0) + sp));
        lemma_then_assoc(t0, flush(b0) + sp, parse_rest(rem.skip(step as int), seq![]));
    }
    Step::Next(pos + step)
}

/// A single line break at `pos`, read as a space.
fn step_soft(s: &[char], pos: usize, step: usize, buf: &mut Vec<char>) -> (r: Step)
    requires
        plain_at(s@, pos as int),
        !starts_with(s@.skip(pos as int), seq!['\n', '\n']),
        !starts_with(s@.skip(pos as int), seq!['\r', '\n', '\r', '\n']),
        step == 1 && s@[pos as int] == '\n' || step == 2 && s@[pos as int] != '\n' && starts_with(
            s@.skip(pos as int),
            seq!['\r', '\n'],
        ),
    ensures
        r == Step::Next((pos + step) as usize),
        pos < pos + step <= s@.len(),
        then(Seq::empty(), parse_rest(s@.skip(pos as int), old(buf)@)) == then(
            Seq::empty(),
            parse_rest(s@.skip(pos + step), final(buf)@),
        ),
{
    let ghost rem = s@.skip(pos as int);
    let ghost b0 = buf@;
    let len = s.len();
    assert(rem[0] == s@[pos as int]);
    assert(pos + step <= len);
    if buf.len() == 0 || buf[buf.len() - 1] != ' ' {
        buf.push(' ');
    }
    assert(buf@ =~= soft_break(b0));
    assert(rem.skip(step as int) =~= s@.skip(pos + step));
    Step::Next(pos + step)
}

/// An ordinary character at `pos`.
fn step_char(s: &[char], pos: usize, buf: &mut Vec<char>)
    requires
        plain_at(s@, pos as int),
        !starts_with(s@.skip(pos as int), seq!['\n', '\n']),
        !starts_with(s@.skip(pos as int), seq!['\r', '\n', '\r', '\n']),
        s@[pos as int] != '\n',
        !starts_with(s@.skip(pos as int), seq!['\r', '\n']),
    ensures
        parse_rest(s@.skip(pos as int), old(buf)@) == parse_rest(s@.skip(pos + 1), final(buf)@),
{
    let ghost rem = s@.skip(pos as int);
    assert(rem[0] == s@[pos as int]);
    buf.push(s[pos]);
    assert(rem.drop_first() =~= s@.skip(pos + 1));
}

/// Anything else at `pos`: line breaks and ordinary characters.
fn step_plain(s: &[char], pos: usize, p: &Pats, text: &mut FormattedText, buf: &mut Vec<char>) -> (r: Step)
    requires
        pats_ok(*p),
        plain_at(s@, pos as int),
    ensures
        stepped(s@, pos as int, old(text)@, old(buf)@, r, final(text)@, final(buf)@),
{
    if starts_at(s, pos, &p.nn) {
        step_paragraph(s, pos, 2, text, buf)
    } else if starts_at(s, pos, &p.rnrn) {
        step_paragraph(s, pos, 4, text, buf)
    } else if s[pos] == '\n' {
        let r = step_soft(s, pos, 1, buf);
        proof {
            lemma_then_empty(text@, parse_rest(s@.skip(pos as int), old(buf)@), parse_rest(s@.skip(pos + 1), buf@));
        }
        r
    } else if starts_at(s, pos, &p.rn) {
        let r = step_soft(s, pos, 2, buf);
        proof {
            lemma_then_empty(text@, parse_rest(s@.skip(pos as int), old(buf)@), parse_rest(s@.skip(pos + 2), buf@));
        }
        r
    } else {
        step_char(s, pos, buf);
        Step::Next(pos + 1)
    }
}

proof fn lemma_then_empty(t: Seq<SpanV>, a: Parsed, b: Parsed)
    requires
        then(Seq::empty(), a) == then(Seq::empty(), b),
    ensures
        then(t, a) == then(t, b),
{
    match a {
        Parsed::Spans(x) => {
            assert(Seq::<SpanV>::empty() + x =~= x);
            match b {
                Parsed::Spans(y) => {
                    assert(Seq::<SpanV>::empty() + y =~= y);
                },
                _ => {},
            }
        },
        _ => {
            match b {
                Parsed::Spans(y) => {
                    assert(Seq::<SpanV>::empty() + y =~= y);
                },
                _ => {},
            }
        },
    }
}

/// Read already-prepared characters.
fn read_chars(s: &[char]) -> (res: Result<FormattedText, String>)
    ensures
        match parse_rest(s@, seq![]) {
            Parsed::Spans(x) => res matches Ok(t) && t@ == x,
            Parsed::Unclosed(t) => res matches Err(m) && m@ == unclosed_message(t),
        },
{
    let p = pats();
    let mut text = FormattedText::new();
    let mut buf: Vec<char> = Vec::new();
    let mut pos: usize = 0;
    let ghost whole = parse_rest(s@, seq![]);
    assert(s@.skip(0) =~= s@);
    assert(then(text@, parse_rest(s@.skip(0), buf@)) =~= whole) by {
        match parse_rest(s@, seq![]) {
            Parsed::Spans(x) => {
                assert(text@ + x =~= x);
            },
            _ => {},
        }
    }
    while pos < s.len()
        invariant
            pos <= s@.len(),
            pats_ok(p),
            whole == parse_rest(s@, seq![]),
            whole == then(text@, parse_rest(s@.skip(pos as int), buf@)),
        decreases s.len() - pos,
    {
        let ghost t0 = text@;
        let ghost b0 = buf@;
        let r = if starts_at(s, pos, &p.ob) {
            step_tag(s, pos, 'b', &p, &mut text, &mut buf)
        } else if starts_at(s, pos, &p.oi) {
            step_tag(s, pos, 'i', &p, &mut text, &mut buf)
        } else if starts_at(s, pos, &p.ou) {
            step_tag(s, pos, 'u', &p, &mut text, &mut buf)
        } else if starts_at(s, pos, &p.osp) {
            step_span(s, pos, &p, &mut text, &mut buf)
        } else if s[pos] == '\\' && pos + 1 < s.len() {
            step_escape(s, pos, &mut text, &mut buf)
        } else {
            step_plain(s, pos, &p, &mut text, &mut buf)
        };
        match r {
            Step::Next(np) => {
                pos = np;
            },
            Step::Finished => {
                return Ok(text);
            },
            Step::Failed(c) => {
                return Err(unclosed_error(c));
            },
        }
    }
    flush_buf(&mut text, &mut buf);
    assert(s@.skip(pos as int).len() == 0);
    Ok(text)
}

proof fn lemma_then_assoc(t0: Seq<SpanV>, mid: Seq<SpanV>, r: Parsed)
    ensures
        then(t0, then(mid, r)) == then(t0 + mid, r),
{
    match r {
        Parsed::Spans(x) => {
            assert(t0 + (mid + x) =~= (t0 + mid) + x);
        },
        _ => {},
    }
}

/// The span a `<b>` tag's content reads as.
fn bold_span_exec(c: &[char], oi: &[char; 3], ci: &[char; 4]) -> (r: TextSpan)
    requires
        oi@ == tag_open('i'),
        ci@ == tag_close('i'),
    ensures
        r@ == bold_span(c@),
{
    assert(c@.skip(0) =~= c@);
    if starts_at(c, 0, oi) && ends_with_chars(c, ci) && c.len() >= 7 {
        let inner = slice_of(c, 3, c.len() - 4);
        TextSpan::bold_italic(escaped(&inner))
    } else {
        TextSpan::bold(escaped(c))
    }
}

/// The spans an `<i>` tag's content reads as, written out.
fn push_italic(
    text: &mut FormattedText,
    c: &[char],
    ob: &[char; 3],
    cb: &[char; 4],
    ou: &[char; 3],
    osp: &[char; 5],
)
    requires
        ob@ == tag_open('b'),
        cb@ == tag_close('b'),
        ou@ == tag_open('u'),
        osp@ == span_start(),
    ensures
        final(text)@ == old(text)@ + italic_spans(c@),
{
    assert(c@.skip(0) =~= c@);
    if starts_at(c, 0, ob) && ends_with_chars(c, cb) && c.len() >= 7 {
        let inner = slice_of(c, 3, c.len() - 4);
        text.push(TextSpan::bold_italic(escaped(&inner)));
        assert(text@ =~= old(text)@ + italic_spans(c@));
    } else if contains_chars(c, ob) {
        push_nested(text, c, 'b');
    } else if contains_chars(c, ou) {
        push_nested(text, c, 'u');
    } else if contains_chars(c, osp) {
        push_nested_color(text, c);
    } else {
        text.push(TextSpan::italic(escaped(c)));
        assert(text@ =~= old(text)@ + italic_spans(c@));
    }
}

/// Parse commentary text into a block (in the default slot).
pub fn parse_commentary(input: &str) -> (res: Result<CommentaryBlock, String>)
    ensures
        match parsed_commentary(input@) {
            Parsed::Spans(s) => res matches Ok(b) && b.content@ == s && b.slot
                == crate::model::commentary::CommentarySlot::Final,
            Parsed::Unclosed(t) => res matches Err(m) && m@ == unclosed_message(t),
        },
{
    let content = parse_formatted_text(input)?;
    Ok(CommentaryBlock::new(content))
}

/// The text between the first `{` and the last `}`, and what follows that
/// `}`.
pub open spec fn braces(s: Seq<char>) -> Option<(Seq<char>, Seq<char>)> {
    match (find(s, seq!['{']), rfind_char(s, '}')) {
        (Some(start), Some(end)) => if end > start {
            Some((s.subrange(start + 1, end), s.skip(end + 1)))
        } else {
            None
        },
        _ => None,
    }
}

pub proof fn lemma_rfind_bounds(s: Seq<char>, c: char)
    ensures
        rfind_char(s, c) matches Some(k) ==> 0 <= k < s.len() && s[k] == c,
    decreases s.len(),
{
    if s.len() > 0 && s.last() != c {
        lemma_rfind_bounds(s.drop_last(), c);
    }
}

/// Extract a commentary block from braces: the text inside the first `{` and
/// the last `}`, and the rest of the line after it.
pub fn extract_commentary(input: &str) -> (res: Option<(String, String)>)
    ensures
        match braces(input@) {
            Some((inside, rest)) => res matches Some((a, b)) && a@ == inside && b@ == rest,
            None => res is None,
        },
{
    let s = crate::text::chars_of(input);
    let ob = ['{'];
    assert(ob@ =~= seq!['{']);
    assert(s@.skip(0) =~= s@);
    let start = match find_at(&s, 0, &ob) {
        Some(k) => k,
        None => {
            return None;
        },
    };
    let end = match rfind(&s, '}') {
        Some(k) => k,
        None => {
            return None;
        },
    };
    proof {
        lemma_rfind_bounds(s@, '}');
    }
    proof {
        lemma_find_bounds(s@, seq!['{']);
    }
    assert(find(s@, seq!['{']) == Some(start as int));
    assert(rfind_char(s@, '}') == Some(end as int));
    if end > start {
        let inside = slice_of(&s, start + 1, end);
        let rest = slice_of(&s, end + 1, s.len());
        assert(rest@ =~= s@.skip(end + 1));
        let a = crate::text::string_of(&inside);
        let b = crate::text::string_of(&rest);
        assert(braces(s@) == Some((inside@, rest@)));
        Some((a, b))
    } else {
        None
    }
}

} // verus!
