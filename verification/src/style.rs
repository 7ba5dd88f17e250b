//! Styled text: colours, modifiers, spans and lines, as plain values.

use crate::text::{bytes_of, is_span, lemma_bytes_concat, owned};
use vstd::prelude::*;

verus! {

/// A colour of the terminal.
#[derive(Debug, Clone, Copy, PartialEq, Eq, Structural, Hash)]
pub enum Color {
    Reset,
    Black,
    Red,
    Green,
    Yellow,
    Blue,
    Magenta,
    Cyan,
    Gray,
    DarkGray,
    LightRed,
    LightGreen,
    LightYellow,
    LightBlue,
    LightMagenta,
    LightCyan,
    White,
    /// A colour of the 256-colour palette.
    Indexed(u8),
    Rgb(u8, u8, u8),
}

/// A way of drawing text that can be switched on.
#[derive(Debug, Clone, Copy, PartialEq, Eq, Structural, Hash)]
pub enum Modifier {
    Bold,
    Dim,
    Italic,
    Underlined,
}

/// The modifiers that are switched on.
#[derive(Debug, Clone, Copy, PartialEq, Eq, Structural, Hash)]
pub struct Modifiers {
    pub bold: bool,
    pub dim: bool,
    pub italic: bool,
    pub underlined: bool,
}

impl Modifiers {
    /// Whether the modifier is switched on.
    pub open spec fn has(self, m: Modifier) -> bool {
        match m {
            Modifier::Bold => self.bold,
            Modifier::Dim => self.dim,
            Modifier::Italic => self.italic,
            Modifier::Underlined => self.underlined,
        }
    }

    /// The modifiers with `m` switched on as well.
    pub open spec fn with(self, m: Modifier) -> Modifiers {
        match m {
            Modifier::Bold => Modifiers { bold: true, ..self },
            Modifier::Dim => Modifiers { dim: true, ..self },
            Modifier::Italic => Modifiers { italic: true, ..self },
            Modifier::Underlined => Modifiers { underlined: true, ..self },
        }
    }

    /// No modifier switched on.
    pub open spec fn none() -> Modifiers {
        Modifiers { bold: false, dim: false, italic: false, underlined: false }
    }

    /// Whether the modifier is switched on.
    pub fn contains(self, m: Modifier) -> (r: bool)
        ensures
            r == self.has(m),
    {
        match m {
            Modifier::Bold => self.bold,
            Modifier::Dim => self.dim,
            Modifier::Italic => self.italic,
            Modifier::Underlined => self.underlined,
        }
    }
}

/// How a piece of text is drawn.
#[derive(Debug, Clone, Copy, PartialEq, Eq, Structural, Hash)]
pub struct Style {
    pub fg: Option<Color>,
    pub bg: Option<Color>,
    pub add_modifier: Modifiers,
}

impl Style {
    /// The style that changes nothing.
    pub open spec fn plain() -> Style {
        Style { fg: None, bg: None, add_modifier: Modifiers::none() }
    }

    /// The style with the foreground colour `color`.
    pub open spec fn fg_of(self, color: Color) -> Style {
        Style { fg: Some(color), ..self }
    }

    /// The style with the background colour `color`.
    pub open spec fn bg_of(self, color: Color) -> Style {
        Style { bg: Some(color), ..self }
    }

    /// The style with the modifier `m` switched on.
    pub open spec fn with(self, m: Modifier) -> Style {
        Style { add_modifier: self.add_modifier.with(m), ..self }
    }

    /// The style that changes nothing.
    pub fn new() -> (r: Style)
        ensures
            r == Style::plain(),
    {
        Style {
            fg: None,
            bg: None,
            add_modifier: Modifiers { bold: false, dim: false, italic: false, underlined: false },
        }
    }

    /// The style with the foreground colour `color`.
    pub fn fg(self, color: Color) -> (r: Style)
        ensures
            r == self.fg_of(color),
    {
        Style { fg: Some(color), bg: self.bg, add_modifier: self.add_modifier }
    }

    /// The style with the background colour `color`.
    pub fn bg(self, color: Color) -> (r: Style)
        ensures
            r == self.bg_of(color),
    {
        Style { fg: self.fg, bg: Some(color), add_modifier: self.add_modifier }
    }

    /// The style with the modifier `m` switched on.
    pub fn add_modifier(self, m: Modifier) -> (r: Style)
        ensures
            r == self.with(m),
    {
        let a = self.add_modifier;
        let add_modifier = match m {
            Modifier::Bold => Modifiers {
                bold: true,
                dim: a.dim,
                italic: a.italic,
                underlined: a.underlined,
            },
            Modifier::Dim => Modifiers {
                bold: a.bold,
                dim: true,
                italic: a.italic,
                underlined: a.underlined,
            },
            Modifier::Italic => Modifiers {
                bold: a.bold,
                dim: a.dim,
                italic: true,
                underlined: a.underlined,
            },
            Modifier::Underlined => Modifiers {
                bold: a.bold,
                dim: a.dim,
                italic: a.italic,
                underlined: true,
            },
        };
        Style { fg: self.fg, bg: self.bg, add_modifier }
    }
}

impl Default for Style {
    fn default() -> (r: Style)
        ensures
            r == Style::plain(),
    {
        Style::new()
    }
}

/// A piece of text with its style.
#[derive(Debug, Clone)]
pub struct Span {
    pub content: String,
    pub style: Style,
}

/// What a [`Span`] holds, as mathematical values.
pub struct Piece {
    pub content: Seq<char>,
    pub style: Style,
}

impl View for Span {
    type V = Piece;

    open spec fn view(&self) -> Piece {
        Piece { content: self.content@, style: self.style }
    }
}

impl Span {
    /// The text `content` in the style `style`.
    pub fn styled(content: String, style: Style) -> (r: Span)
        ensures
            r@ == (Piece { content: content@, style }),
    {
        Span { content, style }
    }

    /// A copy of the text `content` in the style `style`.
    pub fn of(content: &str, style: Style) -> (r: Span)
        ensures
            r@ == (Piece { content: content@, style }),
    {
        Span { content: owned(content), style }
    }
}

/// A line of styled text.
#[derive(Debug, Clone)]
pub struct Line {
    pub spans: Vec<Span>,
}

/// The pieces of a sequence of spans.
pub open spec fn pieces_of(spans: Seq<Span>) -> Seq<Piece> {
    Seq::new(spans.len(), |i: int| spans[i]@)
}

impl View for Line {
    type V = Seq<Piece>;

    open spec fn view(&self) -> Seq<Piece> {
        pieces_of(self.spans@)
    }
}

impl Line {
    /// The line of the given spans.
    pub fn from(spans: Vec<Span>) -> (r: Line)
        ensures
            r@ == pieces_of(spans@),
            r.spans == spans,
    {
        Line { spans }
    }
}

/// The text of the pieces, one after the other.
pub open spec fn text_of_pieces(pieces: Seq<Piece>) -> Seq<char>
    decreases pieces.len(),
{
    if pieces.len() == 0 {
        Seq::empty()
    } else {
        text_of_pieces(pieces.drop_last()) + pieces.last().content
    }
}

/// Adds a span to the end of `spans`.
pub fn push_span(spans: &mut Vec<Span>, content: &str, style: Style)
    ensures
        pieces_of(final(spans)@) == pieces_of(old(spans)@).push(
            Piece { content: content@, style },
        ),
{
    spans.push(Span::of(content, style));
    assert(pieces_of(spans@) =~= pieces_of(old(spans)@).push(Piece { content: content@, style }));
}

/// Adds the spans `more` to the end of `spans`.
pub fn extend_spans(spans: &mut Vec<Span>, more: Vec<Span>)
    ensures
        pieces_of(final(spans)@) == pieces_of(old(spans)@) + pieces_of(more@),
{
    let mut more = more;
    let ghost added = more@;
    spans.append(&mut more);
    assert(pieces_of(spans@) =~= pieces_of(old(spans)@) + pieces_of(added));
}

/// The byte at which the piece `i` starts in the text of the pieces.
pub open spec fn offset_of(pieces: Seq<Piece>, i: int) -> int {
    bytes_of(text_of_pieces(pieces.subrange(0, i))).len() as int
}

/// The text of the pieces is the text of a head of them and then that of
/// the rest.
pub proof fn lemma_text_split(pieces: Seq<Piece>, i: int)
    requires
        0 <= i <= pieces.len(),
    ensures
        text_of_pieces(pieces) == text_of_pieces(pieces.subrange(0, i)) + text_of_pieces(
            pieces.subrange(i, pieces.len() as int),
        ),
    decreases pieces.len() - i,
{
    let tail = pieces.subrange(i, pieces.len() as int);
    if i == pieces.len() {
        assert(pieces.subrange(0, i) =~= pieces);
        assert(tail =~= Seq::empty());
        assert(text_of_pieces(pieces) + Seq::empty() =~= text_of_pieces(pieces));
    } else {
        lemma_text_split(pieces.drop_last(), i);
        assert(pieces.drop_last().subrange(0, i) =~= pieces.subrange(0, i));
        assert(pieces.drop_last().subrange(i, pieces.len() - 1) =~= tail.drop_last());
        assert(tail.last() == pieces.last());
        assert(text_of_pieces(pieces) =~= text_of_pieces(pieces.subrange(0, i)) + text_of_pieces(
            tail,
        ));
    }
}

/// The text of two runs of pieces, one after the other, is the text of the
/// first and then that of the second; the text of one piece is its content.
pub proof fn lemma_text_concat(first: Seq<Piece>, second: Seq<Piece>)
    ensures
        text_of_pieces(first + second) == text_of_pieces(first) + text_of_pieces(second),
        second.len() == 1 ==> text_of_pieces(second) == second[0].content,
{
    let all = first + second;
    lemma_text_split(all, first.len() as int);
    assert(all.subrange(0, first.len() as int) =~= first);
    assert(all.subrange(first.len() as int, all.len() as int) =~= second);
    if second.len() == 1 {
        assert(second.drop_last().len() == 0);
        assert(text_of_pieces(second.drop_last()) =~= Seq::<char>::empty());
        assert(second.last() == second[0]);
        assert(text_of_pieces(second) =~= second[0].content);
    }
}

/// Each piece starts in the text of the pieces where the one before it
/// ends, at a byte that cuts no character.
pub proof fn lemma_piece_offsets(pieces: Seq<Piece>, i: int)
    requires
        0 <= i < pieces.len(),
    ensures
        offset_of(pieces, 0) == 0,
        offset_of(pieces, i + 1) == offset_of(pieces, i) + bytes_of(pieces[i].content).len(),
        offset_of(pieces, i + 1) <= bytes_of(text_of_pieces(pieces)).len(),
        offset_of(pieces, pieces.len() as int) == bytes_of(text_of_pieces(pieces)).len(),
        is_span(text_of_pieces(pieces), offset_of(pieces, i), offset_of(pieces, i + 1)),
{
    let full = text_of_pieces(pieces);
    let head = pieces.subrange(0, i);
    let upto = pieces.subrange(0, i + 1);
    assert(pieces.subrange(0, 0) =~= Seq::empty());
    assert(pieces.subrange(0, pieces.len() as int) =~= pieces);
    assert(upto.drop_last() =~= head);
    assert(upto.last() == pieces[i]);
    lemma_bytes_concat(text_of_pieces(head), pieces[i].content);
    lemma_text_split(pieces, i);
    lemma_text_split(pieces, i + 1);
    lemma_bytes_concat(text_of_pieces(head), text_of_pieces(pieces.subrange(i, pieces.len() as int)));
    lemma_bytes_concat(
        text_of_pieces(upto),
        text_of_pieces(pieces.subrange(i + 1, pieces.len() as int)),
    );
}

} // verus!
