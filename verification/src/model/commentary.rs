//! Commentary text: runs of styled text, suit symbols and card references.
use vstd::prelude::*;

use super::card::{rank_display, suit_symbol, Rank, Suit};
use crate::text::{all_ws, append, is_blank_chars};

verus! {

/// One run of commentary text.
#[derive(Debug, PartialEq, Eq)]
pub enum TextSpan {
    Plain(String),
    Bold(String),
    Italic(String),
    BoldItalic(String),
    Underline(String),
    /// Text with an explicit foreground color, optionally italic.
    /// Parsed from `<span style=color:#XXX>...</span>`, possibly wrapped in `<i>...</i>`.
    Colored { text: String, italic: bool, rgb: (u8, u8, u8) },
    SuitSymbol(Suit),
    CardRef { suit: Suit, rank: Rank },
    LineBreak,
}

/// What a [`TextSpan`] holds, with its text as characters.
pub enum SpanV {
    Plain(Seq<char>),
    Bold(Seq<char>),
    Italic(Seq<char>),
    BoldItalic(Seq<char>),
    Underline(Seq<char>),
    Colored { text: Seq<char>, italic: bool, rgb: (u8, u8, u8) },
    SuitSymbol(Suit),
    CardRef { suit: Suit, rank: Rank },
    LineBreak,
}

impl View for TextSpan {
    type V = SpanV;

    open spec fn view(&self) -> SpanV {
        match self {
            TextSpan::Plain(s) => SpanV::Plain(s@),
            TextSpan::Bold(s) => SpanV::Bold(s@),
            TextSpan::Italic(s) => SpanV::Italic(s@),
            TextSpan::BoldItalic(s) => SpanV::BoldItalic(s@),
            TextSpan::Underline(s) => SpanV::Underline(s@),
            TextSpan::Colored { text, italic, rgb } => SpanV::Colored {
                text: text@,
                italic: *italic,
                rgb: *rgb,
            },
            TextSpan::SuitSymbol(s) => SpanV::SuitSymbol(*s),
            TextSpan::CardRef { suit, rank } => SpanV::CardRef { suit: *suit, rank: *rank },
            TextSpan::LineBreak => SpanV::LineBreak,
        }
    }
}

impl Clone for TextSpan {
    fn clone(&self) -> (t: Self)
        ensures
            t@ == self@,
    {
        match self {
            TextSpan::Plain(s) => TextSpan::Plain(s.clone()),
            TextSpan::Bold(s) => TextSpan::Bold(s.clone()),
            TextSpan::Italic(s) => TextSpan::Italic(s.clone()),
            TextSpan::BoldItalic(s) => TextSpan::BoldItalic(s.clone()),
            TextSpan::Underline(s) => TextSpan::Underline(s.clone()),
            TextSpan::Colored { text, italic, rgb } => TextSpan::Colored {
                text: text.clone(),
                italic: *italic,
                rgb: (rgb.0, rgb.1, rgb.2),
            },
            TextSpan::SuitSymbol(s) => TextSpan::SuitSymbol(*s),
            TextSpan::CardRef { suit, rank } => TextSpan::CardRef { suit: *suit, rank: *rank },
            TextSpan::LineBreak => TextSpan::LineBreak,
        }
    }
}

impl TextSpan {
    pub fn plain(s: String) -> (t: Self)
        ensures
            t@ == SpanV::Plain(s@),
    {
        TextSpan::Plain(s)
    }

    pub fn bold(s: String) -> (t: Self)
        ensures
            t@ == SpanV::Bold(s@),
    {
        TextSpan::Bold(s)
    }

    pub fn italic(s: String) -> (t: Self)
        ensures
            t@ == SpanV::Italic(s@),
    {
        TextSpan::Italic(s)
    }

    pub fn bold_italic(s: String) -> (t: Self)
        ensures
            t@ == SpanV::BoldItalic(s@),
    {
        TextSpan::BoldItalic(s)
    }

    pub fn underline(s: String) -> (t: Self)
        ensures
            t@ == SpanV::Underline(s@),
    {
        TextSpan::Underline(s)
    }

    pub fn colored(s: String, rgb: (u8, u8, u8)) -> (t: Self)
        ensures
            t@ == (SpanV::Colored { text: s@, italic: false, rgb }),
    {
        TextSpan::Colored { text: s, italic: false, rgb }
    }

    pub fn italic_colored(s: String, rgb: (u8, u8, u8)) -> (t: Self)
        ensures
            t@ == (SpanV::Colored { text: s@, italic: true, rgb }),
    {
        TextSpan::Colored { text: s, italic: true, rgb }
    }
}

/// Whether a span shows nothing but whitespace.
pub open spec fn span_blank(s: SpanV) -> bool {
    match s {
        SpanV::Plain(t) => all_ws(t),
        SpanV::Bold(t) => all_ws(t),
        SpanV::Italic(t) => all_ws(t),
        SpanV::BoldItalic(t) => all_ws(t),
        SpanV::Underline(t) => all_ws(t),
        SpanV::Colored { text, .. } => all_ws(text),
        SpanV::LineBreak => true,
        SpanV::SuitSymbol(_) => false,
        SpanV::CardRef { .. } => false,
    }
}

/// The characters a span reads as in plain text.
pub open spec fn span_plain(s: SpanV) -> Seq<char> {
    match s {
        SpanV::Plain(t) => t,
        SpanV::Bold(t) => t,
        SpanV::Italic(t) => t,
        SpanV::BoldItalic(t) => t,
        SpanV::Underline(t) => t,
        SpanV::Colored { text, .. } => text,
        SpanV::SuitSymbol(suit) => seq![suit_symbol(suit)],
        SpanV::CardRef { suit, rank } => seq![suit_symbol(suit)] + rank_display(rank),
        SpanV::LineBreak => seq!['\n'],
    }
}

/// The plain text of a run of spans.
pub open spec fn spans_plain(s: Seq<SpanV>) -> Seq<char>
    decreases s.len(),
{
    if s.len() == 0 {
        seq![]
    } else {
        spans_plain(s.drop_last()) + span_plain(s.last())
    }
}

/// Formatted text: a sequence of spans.
#[derive(Debug, Clone, Default)]
pub struct FormattedText {
    pub spans: Vec<TextSpan>,
}

impl View for FormattedText {
    type V = Seq<SpanV>;

    open spec fn view(&self) -> Seq<SpanV> {
        self.spans@.map_values(|t: TextSpan| t@)
    }
}

/// The text of a span that carries text.
fn span_text(span: &TextSpan) -> (t: Option<&String>)
    ensures
        match span@ {
            SpanV::Plain(x) => t matches Some(s) && s@ == x,
            SpanV::Bold(x) => t matches Some(s) && s@ == x,
            SpanV::Italic(x) => t matches Some(s) && s@ == x,
            SpanV::BoldItalic(x) => t matches Some(s) && s@ == x,
            SpanV::Underline(x) => t matches Some(s) && s@ == x,
            SpanV::Colored { text, .. } => t matches Some(s) && s@ == text,
            _ => t is None,
        },
{
    match span {
        TextSpan::Plain(s) | TextSpan::Bold(s) | TextSpan::Italic(s) | TextSpan::BoldItalic(s)
        | TextSpan::Underline(s) => Some(s),
        TextSpan::Colored { text, .. } => Some(text),
        _ => None,
    }
}

impl FormattedText {
    pub fn new() -> (t: Self)
        ensures
            t@ == Seq::<SpanV>::empty(),
    {
        Self { spans: Vec::new() }
    }

    pub fn push(&mut self, span: TextSpan)
        ensures
            final(self)@ == old(self)@.push(span@),
    {
        self.spans.push(span);
        assert(self@ =~= old(self)@.push(span@));
    }

    pub fn is_empty(&self) -> (b: bool)
        ensures
            b == (self@.len() == 0),
    {
        self.spans.len() == 0
    }

    /// Returns true if the text is empty or contains only whitespace and line
    /// breaks.
    pub fn is_blank(&self) -> (b: bool)
        ensures
            b == (forall|i: int| 0 <= i < self@.len() ==> span_blank(#[trigger] self@[i])),
    {
        let mut i: usize = 0;
        while i < self.spans.len()
            invariant
                i <= self.spans@.len(),
                forall|j: int| 0 <= j < i ==> span_blank(#[trigger] self@[j]),
            decreases self.spans.len() - i,
        {
            let span = &self.spans[i];
            assert(self@[i as int] == span@);
            let blank = match span_text(span) {
                Some(t) => {
                    let cs = crate::text::chars_of(t.as_str());
                    is_blank_chars(&cs)
                },
                None => match span {
                    TextSpan::LineBreak => true,
                    _ => false,
                },
            };
            if !blank {
                return false;
            }
            i += 1;
        }
        true
    }

    /// The text with its styling dropped: suit symbols as their symbol, card
    /// references as symbol and rank, line breaks as `\n`.
    pub fn to_plain_text(&self) -> (s: String)
        ensures
            s@ == spans_plain(self@),
    {
        let mut out: Vec<char> = Vec::new();
        let mut i: usize = 0;
        while i < self.spans.len()
            invariant
                i <= self.spans@.len(),
                out@ == spans_plain(self@.take(i as int)),
            decreases self.spans.len() - i,
        {
            assert(self@.take(i + 1).drop_last() =~= self@.take(i as int));
            let span = &self.spans[i];
            assert(self@.take(i + 1).last() == span@);
            match span_text(span) {
                Some(t) => {
                    let cs = crate::text::chars_of(t.as_str());
                    append(&mut out, &cs);
                },
                None => match span {
                    TextSpan::SuitSymbol(suit) => {
                        out.push(suit.symbol());
                    },
                    TextSpan::CardRef { suit, rank } => {
                        out.push(suit.symbol());
                        let r = rank.display_chars();
                        append(&mut out, &r);
                    },
                    _ => {
                        out.push('\n');
                    },
                },
            }
            i += 1;
            assert(out@ =~= spans_plain(self@.take(i as int)));
        }
        assert(self@.take(self@.len() as int) =~= self@);
        crate::text::string_of(&out)
    }
}

/// Which part of its board a commentary block belongs to, decided by where it
/// stood among the record's tags.
#[derive(Debug, Clone, Copy, PartialEq, Eq, Structural, Default)]
pub enum CommentarySlot {
    /// Before `[Board]`: the event commentary, drawn above the board (0x20).
    Event,
    /// Between `[Board]` and `[Deal]`, which Bridge Composer never prints.
    BeforeDeal,
    /// Straight after `[Deal]`: drawn under the diagram, above the auction
    /// (0x40).
    Diagram,
    /// After any later tag: drawn last, under the auction (0x04). Also where a
    /// block of unknown position goes.
    #[default]
    Final,
    /// Inside an `[Auction]` or `[Play]` section's data, which Bridge Composer
    /// discards.
    InSection,
}

/// A commentary block and the slot it stood in.
#[derive(Debug, Clone)]
pub struct CommentaryBlock {
    pub content: FormattedText,
    pub slot: CommentarySlot,
}

impl CommentaryBlock {
    /// A block of `content`, in the default (final) slot.
    pub fn new(content: FormattedText) -> (b: Self)
        ensures
            b.content@ == content@,
            b.slot == CommentarySlot::Final,
    {
        Self { content, slot: CommentarySlot::Final }
    }

    pub fn is_empty(&self) -> (b: bool)
        ensures
            b == (self.content@.len() == 0),
    {
        self.content.is_empty()
    }

    /// Returns true if the content is empty or contains only whitespace.
    pub fn is_blank(&self) -> (b: bool)
        ensures
            b == (forall|i: int|
                0 <= i < self.content@.len() ==> span_blank(#[trigger] self.content@[i])),
    {
        self.content.is_blank()
    }
}

} // verus!
